//! Key handling: what each key does in command mode and in editing mode,
//! which keys cannot be carried out, and the entry point that the
//! terminal loop calls.
use vstd::prelude::*;
use crate::date::{day_in_range, local_today};
use crate::model::{Task, TaskModel, ProjectData, ProjectModel, AllProjectsData, AllProjectsModel, tasks_model, duplicate_tasks, task_dates_valid};
use crate::app::{App, AppModel, FocusArea, ProjectField, TaskField, InputMode, HighlightMode, plain_task};
use crate::schedule::{schedule_would_fit, manual_dates_valid, schedule_fits};
use crate::remap::{renumber_tasks, renumbered};
use crate::nav::{navigate_up, navigate_down, select_next_field, select_previous_field, go_to_top, go_to_bottom};
use crate::editing::{EditTarget, can_edit, edited_project, duration_from_text, apply_edit, load_buffer_for_editing};
use crate::text::{chars_of, copy_chars, without_last_word, remove_last_word};

verus! {

/// A key, as the planner tells keys apart.
#[derive(Clone, Copy, PartialEq, Eq, Structural, Debug)]
pub enum Key {
    Char(char),
    Enter,
    Esc,
    Backspace,
    Up,
    Down,
    Left,
    Right,
    Other,
}

/// The modifier keys held: none, only Shift, only Control, or any other
/// combination.
#[derive(Clone, Copy, PartialEq, Eq, Structural, Debug)]
pub enum Mods {
    Plain,
    Shift,
    Control,
    Other,
}

/// A key press.
#[derive(Clone, Copy, PartialEq, Eq, Structural, Debug)]
pub struct KeyPress {
    pub key: Key,
    pub mods: Mods,
}

/// Projects to write to disk, and whether the outcome is to be reported
/// (`finish_save`) or passes silently.
pub enum SaveRequest {
    Report(AllProjectsData),
    Quiet(AllProjectsData),
}

/// The model of a save request: whether it is reported, and the projects.
pub open spec fn save_model(r: Option<SaveRequest>) -> Option<(bool, AllProjectsModel)> {
    match r {
        Some(SaveRequest::Report(d)) => Some((true, d@)),
        Some(SaveRequest::Quiet(d)) => Some((false, d@)),
        None => None,
    }
}

/// The task that the add command creates.
pub open spec fn new_task_model() -> TaskModel {
    plain_task("New Task"@, "Unassigned"@, 1, 0, Seq::empty())
}

/// Typing keys: any character with no modifier or with Shift only.
pub open spec fn types_text(k: KeyPress) -> bool {
    k.mods == Mods::Plain || k.mods == Mods::Shift
}

impl AppModel {
    /// The state after the command "add a task": the new task is selected
    /// and its name is open for editing.
    pub open spec fn with_new_task(self) -> AppModel {
        let (b, idx) = self.with_added_task(new_task_model());
        AppModel {
            selected: Some(idx as usize),
            focus_area: FocusArea::Tasks,
            selected_task_field: TaskField::Name,
            input_mode: InputMode::Editing,
            ..b.remapped()
        }.buffer_loaded()
    }

    /// The state after the command "show today's week".
    pub open spec fn at_todays_week(self) -> AppModel {
        let s = self.cur().start;
        let week: u32 = if self.today < s { 0 } else { ((self.today - s) / 7) as u32 };
        AppModel {
            status: "Jumped to the week of today's date."@,
            ..self.with_current(ProjectModel { week_to_show: week, ..self.cur() })
        }
    }

    /// The selected task with its details set from the details buffer (none
    /// where the buffer is empty).
    pub open spec fn with_details_stored(self) -> AppModel {
        match self.selected {
            Some(i) => {
                let t = self.tasks()[i as int];
                let d = if self.details_buffer.len() == 0 { None } else { Some(self.details_buffer) };
                self.with_tasks(self.tasks().update(i as int, TaskModel { details: d, ..t }))
            },
            None => self,
        }
    }

    /// The state after the command "details": opens the details of the
    /// selected task for editing, or stores and closes them.
    pub open spec fn details_toggled(self) -> AppModel {
        match self.selected {
            Some(i) => if !self.details_view_open {
                AppModel {
                    details_view_open: true,
                    details_buffer: match self.tasks()[i as int].details {
                        Some(d) => d,
                        None => Seq::empty(),
                    },
                    input_mode: InputMode::Editing,
                    ..self
                }
            } else {
                AppModel { details_view_open: false, input_mode: InputMode::Normal, ..self.with_details_stored() }
            },
            None => self,
        }
    }

    /// The selected task's start date is computed from its dependencies, so
    /// it cannot be edited.
    pub open spec fn start_date_locked(self) -> bool {
        self.selected_task_field == TaskField::StartDate && self.tasks()[self.selected->0 as int].dependencies.len() > 0
    }

    /// The state after Enter in command mode: starts editing the field
    /// under the cursor.
    pub open spec fn entered(self) -> AppModel {
        match self.focus_area {
            FocusArea::Project(_) => AppModel { input_mode: InputMode::Editing, ..self }.buffer_loaded(),
            FocusArea::Tasks => match self.selected {
                Some(i) => if !self.start_date_locked() {
                    AppModel { input_mode: InputMode::Editing, ..self }.buffer_loaded()
                } else {
                    AppModel { status: "Cannot edit Start Date when Dependencies are set."@, ..self }
                },
                None => self,
            },
        }
    }

    /// The state after a key in command mode, with `now` as the current
    /// date.
    pub open spec fn normal_key(self, k: KeyPress, now: i32) -> AppModel {
        if k.mods == Mods::Control {
            match k.key {
                Key::Char('s') => AppModel { active_project_index: self.current, ..self },
                Key::Char('r') => self.redone(),
                _ => self,
            }
        } else {
            match k.key {
                Key::Char('q') => AppModel { should_quit: true, ..self },
                Key::Char('g') => self.at_top(),
                Key::Char('G') => self.at_bottom(),
                Key::Char('K') => self.moved_up(),
                Key::Char('J') => self.moved_down(),
                Key::Char('j') | Key::Down => self.navigated_down(),
                Key::Char('k') | Key::Up => self.navigated_up(),
                Key::Char('h') | Key::Left => self.with_previous_field(),
                Key::Char('l') | Key::Right => self.with_next_field(),
                Key::Char('a') | Key::Char('o') => self.with_new_task(),
                Key::Char('D') => self.deleted_selected(),
                Key::Char('u') => self.undone(),
                Key::Char('t') => self.at_todays_week(),
                Key::Char('N') => self.after_next_project(),
                Key::Char('P') => self.after_previous_project(),
                Key::Char('C') => self.with_new_project(now),
                Key::Char('M') => self.details_toggled(),
                Key::Char('O') => AppModel {
                    highlight_mode: match self.highlight_mode {
                        HighlightMode::Today => HighlightMode::Urgent,
                        HighlightMode::Urgent => HighlightMode::Today,
                    },
                    ..self
                },
                Key::Enter => self.entered(),
                _ => self,
            }
        }
    }

    /// What a key in command mode asks to save.
    pub open spec fn normal_key_save(self, k: KeyPress) -> Option<(bool, AllProjectsModel)> {
        if k.mods == Mods::Control {
            match k.key {
                Key::Char('s') => Some((true, self.saved_projects())),
                _ => None,
            }
        } else {
            match k.key {
                Key::Char('N') | Key::Char('P') => if self.projects.len() > 1 {
                    Some((false, self.saved_projects()))
                } else {
                    None
                },
                Key::Char('C') => Some((false, self.saved_projects())),
                _ => None,
            }
        }
    }

    /// A key in command mode can be carried out: no index past a table, no
    /// date off the calendar, no count past its integer type.
    pub open spec fn normal_key_ok(self, k: KeyPress) -> bool {
        if k.mods == Mods::Control {
            k.key == Key::Char('r') ==> self.can_redo()
        } else {
            match k.key {
                Key::Char('K') => self.can_move_up(),
                Key::Char('J') => self.can_move_down(),
                Key::Char('j') | Key::Down => self.can_navigate_down(),
                Key::Char('a') | Key::Char('o') => self.can_add_task(new_task_model()),
                Key::Char('D') => self.can_delete_selected(),
                Key::Char('u') => self.can_undo(),
                Key::Char('N') => self.projects.len() > 1 ==> self.can_switch_to(self.next_index()),
                Key::Char('P') => self.projects.len() > 1 ==> self.can_switch_to(self.previous_index()),
                Key::Char('C') => self.projects.len() < usize::MAX,
                Key::Char('M') => self.selected matches Some(i) ==> i < self.tasks().len(),
                Key::Enter => self.can_load_buffer(),
                _ => true,
            }
        }
    }

    /// The state after Enter while editing a field: the buffer is written
    /// back (with an undo point), editing ends and the project is
    /// rescheduled.
    pub open spec fn edit_committed(self, now: i32) -> AppModel {
        AppModel {
            input_mode: InputMode::Normal,
            input_buffer: Seq::empty(),
            ..self.with_undo_point().buffer_saved(now)
        }.rescheduled()
    }

    /// Committing an edit does not panic.
    pub open spec fn can_commit_edit(self, now: i32) -> bool {
        &&& self.can_save_buffer()
        &&& self.with_undo_point().buffer_saved(now).can_reschedule()
    }

    /// The state after a key while editing, with `now` as the current date.
    pub open spec fn editing_key(self, k: KeyPress, now: i32) -> AppModel {
        if self.details_view_open {
            match k.key {
                Key::Enter => AppModel {
                    details_view_open: false,
                    input_mode: InputMode::Normal,
                    ..self.with_details_stored()
                },
                Key::Esc => AppModel { details_view_open: false, input_mode: InputMode::Normal, ..self },
                Key::Char(c) => if types_text(k) {
                    AppModel { details_buffer: self.details_buffer.push(c), ..self }
                } else if c == 'w' && k.mods == Mods::Control {
                    AppModel { details_buffer: without_last_word(self.details_buffer), ..self }
                } else {
                    self
                },
                Key::Backspace => AppModel {
                    details_buffer: if self.details_buffer.len() > 0 { self.details_buffer.drop_last() } else { self.details_buffer },
                    ..self
                },
                _ => self,
            }
        } else {
            match k.key {
                Key::Char(c) => if c == 'w' && k.mods == Mods::Control {
                    AppModel { input_buffer: without_last_word(self.input_buffer), ..self }
                } else if types_text(k) {
                    AppModel { input_buffer: self.input_buffer.push(c), ..self }
                } else {
                    self
                },
                Key::Enter => self.edit_committed(now),
                Key::Esc => AppModel { input_mode: InputMode::Normal, input_buffer: Seq::empty(), ..self },
                Key::Backspace => AppModel {
                    input_buffer: if self.input_buffer.len() > 0 { self.input_buffer.drop_last() } else { self.input_buffer },
                    ..self
                },
                _ => self,
            }
        }
    }

    /// A key while editing can be carried out.
    pub open spec fn editing_key_ok(self, k: KeyPress, now: i32) -> bool {
        if self.details_view_open {
            k.key == Key::Enter ==> (self.selected matches Some(i) ==> i < self.tasks().len())
        } else {
            k.key == Key::Enter ==> self.can_commit_edit(now)
        }
    }

    /// The state after a key, with `now` as the current date.
    pub open spec fn after_key(self, k: KeyPress, now: i32) -> AppModel {
        match self.input_mode {
            InputMode::Normal => self.normal_key(k, now),
            InputMode::Editing => self.editing_key(k, now),
        }
    }

    /// What a key asks to save.
    pub open spec fn key_save(self, k: KeyPress) -> Option<(bool, AllProjectsModel)> {
        match self.input_mode {
            InputMode::Normal => self.normal_key_save(k),
            InputMode::Editing => None,
        }
    }

    /// A key can be carried out in the current state.
    pub open spec fn key_ok(self, k: KeyPress, now: i32) -> bool {
        match self.input_mode {
            InputMode::Normal => self.normal_key_ok(k),
            InputMode::Editing => self.editing_key_ok(k, now),
        }
    }
}

/// The task that the add command creates.
fn new_task() -> (t: Task)
    ensures
        t@ == new_task_model(),
{
    let t = Task::new(chars_of("New Task"), chars_of("Unassigned"), 1, 0, Vec::new());
    assert(t@.dependencies =~= Seq::<u32>::empty());
    t
}

/// Sets the week shown to the week of the day the planner was started.
fn show_todays_week(app: &mut App)
    requires
        old(app)@.wf(),
    ensures
        final(app)@ == old(app)@.at_todays_week(),
        final(app)@.wf(),
{
    let ghost a = app@;
    let today_date = app.today;
    let mut p = app.swap_current(crate::app::blank_project());
    proof { assert(p@ == a.cur()); assert(a.cur().dates_valid()); }
    if today_date < p.project_start_date {
        p.week_to_show = 0;
    } else {
        let days_from_start: i64 = today_date as i64 - p.project_start_date as i64;
        p.week_to_show = #[verifier::truncate] ((days_from_start / 7) as u32);
    }
    proof {
        assert(p@.dates_valid()) by {
            assert forall|j: int| 0 <= j < p@.tasks.len() implies task_dates_valid(#[trigger] p@.tasks[j]) by {
                assert(task_dates_valid(a.tasks()[j]));
            }
        }
    }
    app.swap_current(p);
    proof {
        assert(app@.projects =~= a.at_todays_week().projects);
        crate::app::lemma_update_keeps_dates_pub(a.projects, a.current as int, p@);
    }
    app.status_message = chars_of("Jumped to the week of today's date.");
}

/// Stores the details buffer in the selected task.
fn store_details(app: &mut App)
    requires
        old(app)@.wf(),
        old(app)@.selected matches Some(i) ==> i < old(app)@.tasks().len(),
    ensures
        final(app)@ == old(app)@.with_details_stored(),
        final(app)@.wf(),
{
    let ghost a = app@;
    if let Some(selected_index) = app.selected {
        let buffer = copy_chars(&app.details_buffer);
        let mut p = app.swap_current(crate::app::blank_project());
        proof { assert(p@ == a.cur()); assert(a.cur().dates_valid()); }
        let mut task = p.tasks.remove(selected_index);
        task.details = if buffer.len() == 0 { None } else { Some(buffer) };
        p.tasks.insert(selected_index, task);
        let ghost q = p@;
        proof {
            let t = a.tasks()[selected_index as int];
            let d = if a.details_buffer.len() == 0 { None } else { Some(a.details_buffer) };
            assert(q.tasks =~= a.tasks().update(selected_index as int, TaskModel { details: d, ..t }));
            assert(q.dates_valid()) by {
                assert forall|j: int| 0 <= j < q.tasks.len() implies task_dates_valid(#[trigger] q.tasks[j]) by {
                    assert(task_dates_valid(a.tasks()[j]));
                }
            }
        }
        app.swap_current(p);
        proof {
            assert(app@.projects =~= a.with_details_stored().projects);
            crate::app::lemma_update_keeps_dates_pub(a.projects, a.current as int, q);
        }
    }
}

/// Opens the selected task's details for editing, or stores and closes them.
fn toggle_details(app: &mut App)
    requires
        old(app)@.wf(),
        old(app)@.selected matches Some(i) ==> i < old(app)@.tasks().len(),
    ensures
        final(app)@ == old(app)@.details_toggled(),
        final(app)@.wf(),
{
    if let Some(selected_index) = app.selected {
        app.details_view_open = !app.details_view_open;
        if app.details_view_open {
            let task = &app.get_current_project().tasks[selected_index];
            app.details_buffer = match &task.details {
                Some(d) => copy_chars(d),
                None => Vec::new(),
            };
            app.input_mode = InputMode::Editing;
        } else {
            store_details(app);
            app.input_mode = InputMode::Normal;
        }
    }
}

/// Enter in command mode: starts editing the field under the cursor,
/// unless it is a start date computed from dependencies.
fn begin_editing(app: &mut App)
    requires
        old(app)@.wf(),
        old(app)@.can_load_buffer(),
    ensures
        final(app)@ == old(app)@.entered(),
{
    match app.focus_area {
        FocusArea::Project(_) => {
            app.input_mode = InputMode::Editing;
            load_buffer_for_editing(app);
        },
        FocusArea::Tasks => {
            if let Some(selected_index) = app.selected {
                let current_project = app.get_current_project();
                let is_editable = match app.selected_task_field {
                    TaskField::StartDate => current_project.tasks[selected_index].dependencies.len() == 0,
                    _ => true,
                };
                if is_editable {
                    app.input_mode = InputMode::Editing;
                    load_buffer_for_editing(app);
                } else {
                    app.status_message = chars_of("Cannot edit Start Date when Dependencies are set.");
                }
            }
        },
    }
}

/// Handles a key in command mode, with `now` as the current date; returns
/// the projects to save, if the key asks for that.
#[verifier::rlimit(40)]
pub fn handle_normal_mode(app: &mut App, key: KeyPress, now: i32) -> (save: Option<SaveRequest>)
    requires
        old(app)@.wf(),
        day_in_range(now as int),
        old(app)@.normal_key_ok(key),
    ensures
        final(app)@ == old(app)@.normal_key(key, now),
        save_model(save) == old(app)@.normal_key_save(key),
        final(app)@.wf(),
{
    if key.mods == Mods::Control {
        match key.key {
            Key::Char('s') => {
                let saved = app.save_all_projects();
                return Some(SaveRequest::Report(saved));
            },
            Key::Char('r') => app.redo(),
            _ => {},
        }
        return None;
    }
    match key.key {
        Key::Char('q') => app.should_quit = true,
        Key::Char('g') => go_to_top(app),
        Key::Char('G') => go_to_bottom(app),
        Key::Char('K') => app.move_task_up(),
        Key::Char('J') => app.move_task_down(),
        Key::Char('j') | Key::Down => navigate_down(app),
        Key::Char('k') | Key::Up => navigate_up(app),
        Key::Char('h') | Key::Left => select_previous_field(app),
        Key::Char('l') | Key::Right => select_next_field(app),
        Key::Char('a') | Key::Char('o') => {
            let new_task_index = app.add_task(new_task());
            app.selected = Some(new_task_index);
            app.focus_area = FocusArea::Tasks;
            app.selected_task_field = TaskField::Name;
            app.input_mode = InputMode::Editing;
            load_buffer_for_editing(app);
        },
        Key::Char('D') => app.delete_selected_task(),
        Key::Char('u') => app.undo(),
        Key::Char('t') => show_todays_week(app),
        Key::Char('N') => {
            return match app.next_project() {
                Some(saved) => Some(SaveRequest::Quiet(saved)),
                None => None,
            };
        },
        Key::Char('P') => {
            return match app.previous_project() {
                Some(saved) => Some(SaveRequest::Quiet(saved)),
                None => None,
            };
        },
        Key::Char('C') => {
            let saved = app.add_new_project_on(now);
            return Some(SaveRequest::Quiet(saved));
        },
        Key::Char('M') => toggle_details(app),
        Key::Char('O') => {
            app.highlight_mode = match app.highlight_mode {
                HighlightMode::Today => HighlightMode::Urgent,
                HighlightMode::Urgent => HighlightMode::Today,
            };
        },
        Key::Enter => begin_editing(app),
        _ => {},
    }
    None
}

/// Handles a key while editing, with `now` as the current date.
pub fn handle_editing_mode(app: &mut App, key: KeyPress, now: i32)
    requires
        old(app)@.wf(),
        day_in_range(now as int),
        old(app)@.editing_key_ok(key, now),
    ensures
        final(app)@ == old(app)@.editing_key(key, now),
        final(app)@.wf(),
{
    let typing = key.mods == Mods::Plain || key.mods == Mods::Shift;
    if app.details_view_open {
        match key.key {
            Key::Enter => {
                store_details(app);
                app.details_view_open = false;
                app.input_mode = InputMode::Normal;
            },
            Key::Esc => {
                app.details_view_open = false;
                app.input_mode = InputMode::Normal;
            },
            Key::Char(c) => {
                if typing {
                    app.details_buffer.push(c);
                } else if c == 'w' && key.mods == Mods::Control {
                    remove_last_word(&mut app.details_buffer);
                }
            },
            Key::Backspace => {
                app.details_buffer.pop();
                proof {
                    if old(app).details_buffer@.len() > 0 {
                        assert(app.details_buffer@ =~= old(app).details_buffer@.drop_last());
                    }
                }
            },
            _ => {},
        }
        return;
    }
    match key.key {
        Key::Char(c) => {
            if c == 'w' && key.mods == Mods::Control {
                remove_last_word(&mut app.input_buffer);
            } else if typing {
                app.input_buffer.push(c);
            }
        },
        Key::Enter => {
            app.save_state_for_undo();
            app.save_buffer_to_task_on(now);
            app.input_mode = InputMode::Normal;
            app.input_buffer.clear();
            app.recalculate_schedule();
        },
        Key::Esc => {
            app.input_mode = InputMode::Normal;
            app.input_buffer.clear();
        },
        Key::Backspace => {
            app.input_buffer.pop();
            proof {
                if old(app).input_buffer@.len() > 0 {
                    assert(app.input_buffer@ =~= old(app).input_buffer@.drop_last());
                }
            }
        },
        _ => {},
    }
}

/// Handles a key, with `now` as the current date; returns the projects to
/// save, if the key asks for that.
pub fn handle_key_at(app: &mut App, key: KeyPress, now: i32) -> (save: Option<SaveRequest>)
    requires
        old(app)@.wf(),
        day_in_range(now as int),
        old(app)@.key_ok(key, now),
    ensures
        final(app)@ == old(app)@.after_key(key, now),
        save_model(save) == old(app)@.key_save(key),
        final(app)@.wf(),
{
    match app.input_mode {
        InputMode::Normal => handle_normal_mode(app, key, now),
        InputMode::Editing => {
            handle_editing_mode(app, key, now);
            None
        },
    }
}

// ---------------------------------------------------------------------
// Which keys can be carried out

/// Whether the tasks, renumbered, can be scheduled from `start`.
fn renumbered_fits(tasks: Vec<Task>, start: i32) -> (r: bool)
    requires
        day_in_range(start as int),
        manual_dates_valid(tasks_model(tasks@)),
    ensures
        r == schedule_fits(renumbered(tasks_model(tasks@)), start),
{
    let ghost tm = tasks_model(tasks@);
    let mut tasks = tasks;
    renumber_tasks(&mut tasks);
    proof {
        let rm = renumbered(tm);
        assert forall|i: int| 0 <= i < rm.len() implies ((#[trigger] rm[i]).manual_start_date matches Some(d) ==> day_in_range(d as int)) by {
            assert(tm[i].manual_start_date == rm[i].manual_start_date);
        }
    }
    schedule_would_fit(&tasks, start)
}

/// The manual dates of a project with valid dates.
proof fn lemma_project_manual_dates(p: ProjectModel)
    requires
        p.dates_valid(),
    ensures
        manual_dates_valid(p.tasks),
        day_in_range(p.start as int),
{
    assert forall|i: int| 0 <= i < p.tasks.len() implies ((#[trigger] p.tasks[i]).manual_start_date matches Some(d) ==> day_in_range(d as int)) by {
        assert(task_dates_valid(p.tasks[i]));
    }
}

/// Manual dates stay valid when a task list is copied and rearranged.
proof fn lemma_manual_dates_from(tm: Seq<TaskModel>, src: Seq<TaskModel>)
    requires
        manual_dates_valid(src),
        forall|i: int| 0 <= i < tm.len() ==> exists|j: int| 0 <= j < src.len() && (#[trigger] tm[i]).manual_start_date == src[j].manual_start_date,
    ensures
        manual_dates_valid(tm),
{
    assert forall|i: int| 0 <= i < tm.len() implies ((#[trigger] tm[i]).manual_start_date matches Some(d) ==> day_in_range(d as int)) by {
        let j = choose|j: int| 0 <= j < src.len() && tm[i].manual_start_date == src[j].manual_start_date;
        assert(src[j].manual_start_date == tm[i].manual_start_date);
    }
}

/// Whether a written duration stays within `i64`.
fn duration_in_range(buffer: &Vec<char>, old_duration: i64) -> (r: bool)
    ensures
        r == (i64::MIN <= duration_from_text(buffer@, old_duration) <= i64::MAX),
{
    let t = crate::text::trimmed(buffer);
    let n = t.len();
    if n > 0 && (t[n - 1] == 'w' || t[n - 1] == 'm' || t[n - 1] == 'y') {
        let mut body = copy_chars(&t);
        body.pop();
        assert(body@ =~= crate::text::trim(buffer@).drop_last());
        match crate::text::parse_i64(&body) {
            Some(val) => {
                let factor: i128 = if t[n - 1] == 'w' { 7 } else if t[n - 1] == 'm' { 30 } else { 365 };
                let v = (val as i128) * factor;
                i64::MIN as i128 <= v && v <= i64::MAX as i128
            },
            None => true,
        }
    } else {
        true
    }
}

/// Whether the buffer can be written back into `p`.
fn edit_fits(p: &ProjectData, at: &EditTarget, buffer: &Vec<char>) -> (r: bool)
    ensures
        r == can_edit(p@, *at, buffer@),
{
    if at.focus_area == FocusArea::Tasks {
        match at.selected {
            Some(i) => {
                if i >= p.tasks.len() {
                    return false;
                }
                if at.field == TaskField::Duration {
                    return duration_in_range(buffer, p.tasks[i].duration);
                }
                true
            },
            None => true,
        }
    } else {
        true
    }
}

/// Whether the tasks of the current project, copied and rearranged by
/// `f`, can be renumbered and scheduled.
fn current_tasks(app: &App) -> (r: Vec<Task>)
    requires
        app@.wf(),
    ensures
        tasks_model(r@) == app@.tasks(),
{
    duplicate_tasks(&app.get_current_project().tasks)
}

/// Whether Ctrl-R, `u`, `N` or `P` can reschedule the project it brings
/// back.
fn project_fits(p: &ProjectData) -> (r: bool)
    requires
        p@.dates_valid(),
    ensures
        r == schedule_fits(p@.tasks, p@.start),
{
    proof { lemma_project_manual_dates(p@); }
    schedule_would_fit(&p.tasks, p.project_start_date)
}

/// Whether a key in command mode can be carried out.
#[verifier::rlimit(40)]
fn normal_key_is_safe(app: &App, key: KeyPress) -> (r: bool)
    requires
        app@.wf(),
    ensures
        r == app@.normal_key_ok(key),
{
    let ghost a = app@;
    let start = app.get_current_project().project_start_date;
    proof {
        assert(a.cur().dates_valid());
        lemma_project_manual_dates(a.cur());
    }
    let n = app.get_current_project().tasks.len();
    if key.mods == Mods::Control {
        if key.key == Key::Char('r') {
            let k = app.redo_history.len();
            if k == 0 {
                return true;
            }
            proof { assert(a.redo[k - 1].dates_valid()); assert(a.redo.last() == a.redo[k - 1]); }
            return project_fits(&app.redo_history[k - 1]);
        }
        return true;
    }
    match key.key {
        Key::Char('K') => {
            if app.focus_area != FocusArea::Tasks {
                return true;
            }
            match app.selected {
                Some(i) => {
                    let mut tasks = current_tasks(app);
                    if i > 0 {
                        if i >= n {
                            return false;
                        }
                        let t = tasks.remove(i);
                        tasks.insert(i - 1, t);
                        proof {
                            assert(tasks_model(tasks@) =~= a.tasks_swapped(i as int, i - 1));
                            lemma_manual_dates_from(tasks_model(tasks@), a.tasks());
                        }
                    }
                    renumbered_fits(tasks, start)
                },
                None => true,
            }
        },
        Key::Char('J') => {
            if app.focus_area != FocusArea::Tasks {
                return true;
            }
            match app.selected {
                Some(i) => {
                    if n == 0 {
                        return false;
                    }
                    if i < n - 1 {
                        let mut tasks = current_tasks(app);
                        let t = tasks.remove(i + 1);
                        tasks.insert(i, t);
                        proof {
                            assert(tasks_model(tasks@) =~= a.tasks_swapped(i as int, i + 1));
                            lemma_manual_dates_from(tasks_model(tasks@), a.tasks());
                        }
                        renumbered_fits(tasks, start)
                    } else {
                        true
                    }
                },
                None => true,
            }
        },
        Key::Char('j') | Key::Down => {
            !(app.focus_area == FocusArea::Tasks && app.selected.is_some() && n == 0)
        },
        Key::Char('a') | Key::Char('o') => {
            let mut tasks = current_tasks(app);
            let mut t = new_task();
            t.id = app.next_task_id;
            let ghost t2 = t@;
            match app.selected {
                Some(i) => {
                    if i >= n {
                        return false;
                    }
                    tasks.insert(i + 1, t);
                    proof { assert(tasks_model(tasks@) =~= a.tasks().insert(i + 1, t2)); }
                },
                None => {
                    tasks.push(t);
                    proof { assert(tasks_model(tasks@) =~= a.tasks().push(t2)); }
                },
            }
            proof {
                assert forall|k: int| 0 <= k < tasks_model(tasks@).len() implies exists|j: int| 0 <= j < a.tasks().len() + 1 && (#[trigger] tasks_model(tasks@)[k]).manual_start_date == a.tasks().push(t2)[j].manual_start_date by {
                    if a.selected is Some {
                        let ins = a.selected->0 + 1;
                        if k < ins {
                            assert(a.tasks().push(t2)[k] == a.tasks()[k]);
                        } else if k > ins {
                            assert(a.tasks().push(t2)[k - 1] == a.tasks()[k - 1]);
                        } else {
                            assert(a.tasks().push(t2)[a.tasks().len() as int] == t2);
                        }
                    } else {
                        assert(a.tasks().push(t2)[k] == tasks_model(tasks@)[k]);
                    }
                }
                assert(manual_dates_valid(a.tasks().push(t2))) by {
                    assert forall|k: int| 0 <= k < a.tasks().push(t2).len() implies ((#[trigger] a.tasks().push(t2)[k]).manual_start_date matches Some(d) ==> day_in_range(d as int)) by {
                        if k < a.tasks().len() {
                            assert(a.tasks().push(t2)[k] == a.tasks()[k]);
                        }
                    }
                }
                lemma_manual_dates_from(tasks_model(tasks@), a.tasks().push(t2));
            }
            renumbered_fits(tasks, start)
        },
        Key::Char('D') => {
            if app.focus_area != FocusArea::Tasks {
                return true;
            }
            match app.selected {
                Some(i) => {
                    let mut tasks = current_tasks(app);
                    if i < n {
                        tasks.remove(i);
                        proof {
                            assert(tasks_model(tasks@) =~= a.tasks().remove(i as int));
                            lemma_manual_dates_from(tasks_model(tasks@), a.tasks());
                        }
                    }
                    renumbered_fits(tasks, start)
                },
                None => true,
            }
        },
        Key::Char('u') => {
            let k = app.history.len();
            if k == 0 {
                return true;
            }
            proof { assert(a.history[k - 1].dates_valid()); assert(a.history.last() == a.history[k - 1]); }
            project_fits(&app.history[k - 1])
        },
        Key::Char('N') | Key::Char('P') => {
            let len = app.all_projects.projects.len();
            if len <= 1 {
                return true;
            }
            let c = app.current_project_index;
            let k = if key.key == Key::Char('N') {
                (c + 1) % len
            } else if c == 0 {
                len - 1
            } else {
                c - 1
            };
            assert(key.key == Key::Char('P') ==> k as int == (c + len - 1) % (len as int)) by (nonlinear_arith)
                requires c < len, len > 1, key.key == Key::Char('P') ==> k == (if c == 0 { len - 1 } else { c - 1 });
            proof { assert(a.projects[k as int].dates_valid()); }
            project_fits(&app.all_projects.projects[k])
        },
        Key::Char('C') => app.all_projects.projects.len() < usize::MAX,
        Key::Char('M') => match app.selected {
            Some(i) => i < n,
            None => true,
        },
        Key::Enter => !(app.focus_area == FocusArea::Tasks && app.selected.is_some() && app.selected.unwrap() >= n),
        _ => true,
    }
}

/// Whether a key while editing can be carried out.
fn editing_key_is_safe(app: &App, key: KeyPress, now: i32) -> (r: bool)
    requires
        app@.wf(),
        day_in_range(now as int),
    ensures
        r == app@.editing_key_ok(key, now),
{
    let ghost a = app@;
    if key.key != Key::Enter {
        return true;
    }
    let n = app.get_current_project().tasks.len();
    if app.details_view_open {
        return match app.selected {
            Some(i) => i < n,
            None => true,
        };
    }
    let at = EditTarget {
        focus_area: app.focus_area,
        field: app.selected_task_field,
        selected: app.selected,
    };
    let mut p = app.get_current_project().duplicate();
    if !edit_fits(&p, &at, &app.input_buffer) {
        return false;
    }
    proof { assert(a.cur().dates_valid()); }
    apply_edit(&mut p, &at, &app.input_buffer, now);
    project_fits(&p)
}

/// Whether a key can be carried out, with `now` as the current date.
pub fn key_is_safe(app: &App, key: KeyPress, now: i32) -> (r: bool)
    requires
        app@.wf(),
        day_in_range(now as int),
    ensures
        r == app@.key_ok(key, now),
{
    match app.input_mode {
        InputMode::Normal => normal_key_is_safe(app, key),
        InputMode::Editing => editing_key_is_safe(app, key, now),
    }
}

/// Handles a key press, reading the current date from the clock. Returns
/// `None`, leaving the planner as it was, where the key cannot be carried
/// out; otherwise the projects to save, if the key asks for that.
pub fn handle_key(app: &mut App, key: KeyPress) -> (outcome: Option<Option<SaveRequest>>)
    requires
        old(app)@.wf(),
    ensures
        final(app)@.wf(),
        outcome is None ==> final(app)@ == old(app)@,
        exists|now: i32| {
            &&& day_in_range(now as int)
            &&& (outcome is None <==> !old(app)@.key_ok(key, now))
            &&& (outcome matches Some(s) ==> final(app)@ == old(app)@.after_key(key, now) && save_model(s) == old(app)@.key_save(key))
        },
{
    let now = local_today();
    if key_is_safe(app, key, now) {
        Some(handle_key_at(app, key, now))
    } else {
        None
    }
}

} // verus!
