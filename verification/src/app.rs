//! The planner's state and the commands that change it: adding, deleting
//! and moving tasks, undo and redo, switching and creating projects.
use vstd::prelude::*;
use crate::date::{day_in_range, local_today};
use crate::model::{
    Task, TaskModel, ProjectData, ProjectModel, AllProjectsData, AllProjectsModel, tasks_model,
    projects_model, task_dates_valid, duplicate_projects,
};
use crate::schedule::{
    schedule_fits, scheduled_tasks, max_task_id, placement, schedule_tasks, manual_dates_valid,
    calc_in_range,
};
use crate::remap::{renumbered, renumber_tasks};
use crate::text::{chars_of, concat, decimal, decimal_text};

verus! {

/// Whether keys edit text or command the planner.
#[derive(Clone, Copy, PartialEq, Eq, Structural, Debug)]
pub enum InputMode {
    Normal,
    Editing,
}

/// The column of the task table that is selected.
#[derive(Clone, Copy, PartialEq, Eq, Structural, Debug)]
pub enum TaskField {
    Name,
    AssignedTo,
    StartDate,
    Duration,
    Progress,
    Dependencies,
}

/// A field of the project header.
#[derive(Clone, Copy, PartialEq, Eq, Structural, Debug)]
pub enum ProjectField {
    Name,
    StartDate,
    WeekToShow,
}

/// Where the cursor is: a project field, or the task table.
#[derive(Clone, Copy, PartialEq, Eq, Structural, Debug)]
pub enum FocusArea {
    Project(ProjectField),
    Tasks,
}

/// Which tasks the table highlights.
#[derive(Clone, Copy, PartialEq, Eq, Structural, Debug)]
pub enum HighlightMode {
    Today,
    Urgent,
}

/// The planner's state.
pub struct App {
    pub all_projects: AllProjectsData,
    pub current_project_index: usize,
    /// The day the planner was started.
    pub today: i32,
    /// The selected row of the task table.
    pub selected: Option<usize>,
    pub input_mode: InputMode,
    pub focus_area: FocusArea,
    pub selected_task_field: TaskField,
    pub input_buffer: Vec<char>,
    pub next_task_id: u32,
    pub should_quit: bool,
    pub status_message: Vec<char>,
    /// Earlier states of the current project, the latest last.
    pub history: Vec<ProjectData>,
    /// States undone, the latest last.
    pub redo_history: Vec<ProjectData>,
    pub current_file_path: Vec<char>,
    pub details_view_open: bool,
    pub details_buffer: Vec<char>,
    pub highlight_mode: HighlightMode,
}

/// The model of an `App`.
pub struct AppModel {
    pub projects: Seq<ProjectModel>,
    pub active_project_index: usize,
    pub current: usize,
    pub today: i32,
    pub selected: Option<usize>,
    pub input_mode: InputMode,
    pub focus_area: FocusArea,
    pub selected_task_field: TaskField,
    pub input_buffer: Seq<char>,
    pub next_task_id: u32,
    pub should_quit: bool,
    pub status: Seq<char>,
    pub history: Seq<ProjectModel>,
    pub redo: Seq<ProjectModel>,
    pub file_path: Seq<char>,
    pub details_view_open: bool,
    pub details_buffer: Seq<char>,
    pub highlight_mode: HighlightMode,
}

impl View for App {
    type V = AppModel;

    open spec fn view(&self) -> AppModel {
        AppModel {
            projects: projects_model(self.all_projects.projects@),
            active_project_index: self.all_projects.active_project_index,
            current: self.current_project_index,
            today: self.today,
            selected: self.selected,
            input_mode: self.input_mode,
            focus_area: self.focus_area,
            selected_task_field: self.selected_task_field,
            input_buffer: self.input_buffer@,
            next_task_id: self.next_task_id,
            should_quit: self.should_quit,
            status: self.status_message@,
            history: projects_model(self.history@),
            redo: projects_model(self.redo_history@),
            file_path: self.current_file_path@,
            details_view_open: self.details_view_open,
            details_buffer: self.details_buffer@,
            highlight_mode: self.highlight_mode,
        }
    }
}

/// Every project of the sequence has valid dates.
pub open spec fn all_dates_valid(ps: Seq<ProjectModel>) -> bool {
    forall|i: int| 0 <= i < ps.len() ==> (#[trigger] ps[i]).dates_valid()
}

impl AppModel {
    /// The planner's invariant: there is a current project, and every date
    /// it holds, in the projects and in the history, is on the calendar.
    pub open spec fn wf(self) -> bool {
        &&& self.projects.len() > 0
        &&& self.current < self.projects.len()
        &&& all_dates_valid(self.projects)
        &&& all_dates_valid(self.history)
        &&& all_dates_valid(self.redo)
        &&& day_in_range(self.today as int)
    }

    /// The current project.
    pub open spec fn cur(self) -> ProjectModel {
        self.projects[self.current as int]
    }

    /// The tasks of the current project.
    pub open spec fn tasks(self) -> Seq<TaskModel> {
        self.cur().tasks
    }

    /// The state with the current project replaced.
    pub open spec fn with_current(self, p: ProjectModel) -> AppModel {
        AppModel { projects: self.projects.update(self.current as int, p), ..self }
    }

    /// The state with the current project's tasks replaced.
    pub open spec fn with_tasks(self, tasks: Seq<TaskModel>) -> AppModel {
        self.with_current(ProjectModel { tasks, ..self.cur() })
    }

    /// Scheduling the current project does not panic.
    pub open spec fn can_reschedule(self) -> bool {
        schedule_fits(self.tasks(), self.cur().start)
    }

    /// The state after scheduling the current project.
    pub open spec fn rescheduled(self) -> AppModel {
        AppModel {
            next_task_id: (max_task_id(self.tasks()) + 1) as u32,
            ..self.with_tasks(scheduled_tasks(self.tasks(), self.cur().start))
        }
    }

    /// The state after renumbering the current project's tasks.
    pub open spec fn renumbered(self) -> AppModel {
        self.with_tasks(renumbered(self.tasks()))
    }

    /// The state after renumbering and scheduling.
    pub open spec fn remapped(self) -> AppModel {
        self.renumbered().rescheduled()
    }

    /// The state with the current project saved for undo and the redo
    /// history dropped.
    pub open spec fn with_undo_point(self) -> AppModel {
        AppModel { history: self.history.push(self.cur()), redo: Seq::empty(), ..self }
    }

    /// Undo: the latest saved state comes back (rescheduled) and the
    /// current one goes to the redo history.
    pub open spec fn undone(self) -> AppModel {
        if self.history.len() > 0 {
            AppModel {
                history: self.history.drop_last(),
                redo: self.redo.push(self.cur()),
                status: "Undo successful."@,
                ..self.with_current(self.history.last())
            }.rescheduled()
        } else {
            AppModel { status: "Nothing to undo."@, ..self }
        }
    }

    /// Undo does not panic.
    pub open spec fn can_undo(self) -> bool {
        self.history.len() > 0 ==> self.with_current(self.history.last()).can_reschedule()
    }

    /// Redo: the latest undone state comes back (rescheduled) and the
    /// current one goes to the history.
    pub open spec fn redone(self) -> AppModel {
        if self.redo.len() > 0 {
            AppModel {
                history: self.history.push(self.cur()),
                redo: self.redo.drop_last(),
                status: "Redo successful."@,
                ..self.with_current(self.redo.last())
            }.rescheduled()
        } else {
            AppModel { status: "Nothing to redo."@, ..self }
        }
    }

    /// Redo does not panic.
    pub open spec fn can_redo(self) -> bool {
        self.redo.len() > 0 ==> self.with_current(self.redo.last()).can_reschedule()
    }

    /// The task list and the index of the new task after adding `t` below
    /// the selected row (or at the end), before renumbering.
    pub open spec fn with_added_task(self, t: TaskModel) -> (AppModel, int) {
        let t2 = TaskModel { id: self.next_task_id, ..t };
        match self.selected {
            Some(i) => (self.with_undo_point().with_tasks(self.tasks().insert(i + 1, t2)), i + 1),
            None => (self.with_undo_point().with_tasks(self.tasks().push(t2)), self.tasks().len() as int),
        }
    }

    /// Adding a task does not panic: the selected row exists (or none is
    /// selected) and the result can be scheduled.
    pub open spec fn can_add_task(self, t: TaskModel) -> bool {
        &&& (self.selected matches Some(i) ==> i < self.tasks().len())
        &&& self.with_added_task(t).0.renumbered().can_reschedule()
    }

    /// The state after deleting the selected task, before renumbering.
    pub open spec fn with_selected_deleted(self) -> AppModel {
        let i = self.selected->0;
        let n = self.tasks().len();
        let b = self.with_undo_point();
        if i < n {
            let l = (n - 1) as int;
            let sel = if i > 0 && l > 0 && i >= l {
                Some((l - 1) as usize)
            } else if l == 0 {
                None
            } else if i < l {
                Some(i)
            } else if l > 0 {
                Some((l - 1) as usize)
            } else {
                None
            };
            let focus = if !(i > 0 && l > 0 && i >= l) && l == 0 {
                FocusArea::Project(ProjectField::WeekToShow)
            } else {
                self.focus_area
            };
            AppModel { selected: sel, focus_area: focus, ..b.with_tasks(self.tasks().remove(i as int)) }
        } else {
            AppModel { selected: None, ..b }
        }
    }

    /// A task row is selected in the task table.
    pub open spec fn task_row_selected(self) -> bool {
        self.focus_area == FocusArea::Tasks && self.selected is Some
    }

    /// The state after deleting the selected task.
    pub open spec fn deleted_selected(self) -> AppModel {
        if self.task_row_selected() { self.with_selected_deleted().remapped() } else { self }
    }

    /// Deleting does not panic.
    pub open spec fn can_delete_selected(self) -> bool {
        self.task_row_selected() ==> self.with_selected_deleted().renumbered().can_reschedule()
    }

    /// The tasks with positions `i` and `j` exchanged.
    pub open spec fn tasks_swapped(self, i: int, j: int) -> Seq<TaskModel> {
        self.tasks().update(i, self.tasks()[j]).update(j, self.tasks()[i])
    }

    /// The state after moving the selected task up, before renumbering.
    pub open spec fn with_selected_up(self) -> AppModel {
        let i = self.selected->0;
        if i > 0 {
            AppModel {
                selected: Some((i - 1) as usize),
                ..self.with_undo_point().with_tasks(self.tasks_swapped(i as int, i - 1))
            }
        } else {
            self
        }
    }

    /// The state after moving the selected task up.
    pub open spec fn moved_up(self) -> AppModel {
        if self.task_row_selected() { self.with_selected_up().remapped() } else { self }
    }

    /// Moving up does not panic: the selected row exists (unless it is
    /// the first) and the result can be scheduled.
    pub open spec fn can_move_up(self) -> bool {
        self.task_row_selected() ==> {
            &&& (self.selected->0 > 0 ==> self.selected->0 < self.tasks().len())
            &&& self.with_selected_up().renumbered().can_reschedule()
        }
    }

    /// The selected task is not the last row.
    pub open spec fn below_last_row(self) -> bool {
        self.selected->0 < self.tasks().len() - 1
    }

    /// The state after moving the selected task down.
    pub open spec fn moved_down(self) -> AppModel {
        if self.task_row_selected() && self.below_last_row() {
            let i = self.selected->0;
            AppModel {
                selected: Some((i + 1) as usize),
                ..self.with_undo_point().with_tasks(self.tasks_swapped(i as int, i + 1))
            }.remapped()
        } else {
            self
        }
    }

    /// Moving down does not panic: there is a task, and the result can be
    /// scheduled.
    pub open spec fn can_move_down(self) -> bool {
        self.task_row_selected() ==> {
            &&& self.tasks().len() > 0
            &&& self.below_last_row() ==> (AppModel {
                selected: Some((self.selected->0 + 1) as usize),
                ..self.with_undo_point().with_tasks(self.tasks_swapped(self.selected->0 as int, self.selected->0 + 1))
            }).renumbered().can_reschedule()
        }
    }

    /// The project `k` becomes current, as switching projects does.
    pub open spec fn switched_to(self, k: int) -> AppModel {
        AppModel {
            active_project_index: self.current,
            current: k as usize,
            status: "Switched to project: "@ + self.projects[k].name,
            selected: Some(0),
            ..self
        }.rescheduled()
    }

    /// The projects as they are saved when the planner switches away from
    /// the current one.
    pub open spec fn saved_projects(self) -> AllProjectsModel {
        AllProjectsModel { projects: self.projects, active_project_index: self.current }
    }

    /// The index of the next project, cyclically.
    pub open spec fn next_index(self) -> int {
        (self.current + 1) % (self.projects.len() as int)
    }

    /// The index of the previous project, cyclically.
    pub open spec fn previous_index(self) -> int {
        (self.current + self.projects.len() - 1) % (self.projects.len() as int)
    }

    /// The state after the command "next project".
    pub open spec fn after_next_project(self) -> AppModel {
        if self.projects.len() > 1 {
            self.switched_to(self.next_index())
        } else {
            AppModel { status: "No other projects to switch to."@, ..self }
        }
    }

    /// The state after the command "previous project".
    pub open spec fn after_previous_project(self) -> AppModel {
        if self.projects.len() > 1 {
            self.switched_to(self.previous_index())
        } else {
            AppModel { status: "No other projects to switch to."@, ..self }
        }
    }

    /// Switching to project `k` does not panic.
    pub open spec fn can_switch_to(self, k: int) -> bool {
        (AppModel { current: k as usize, ..self }).can_reschedule()
    }

    /// The name a project created as the `n`-th gets.
    pub open spec fn new_project_name(n: nat) -> Seq<char> {
        "New Project "@ + decimal(n)
    }

    /// The state after adding the sample project and making it current.
    pub open spec fn with_sample_project(self) -> AppModel {
        AppModel {
            projects: self.projects.push(sample_project_model()),
            current: self.projects.len() as usize,
            history: Seq::empty(),
            redo: Seq::empty(),
            ..self
        }
    }

    /// The state after creating a new, empty project that starts `today`.
    pub open spec fn with_new_project(self, today: i32) -> AppModel {
        let name = AppModel::new_project_name((self.projects.len() + 1) as nat);
        let p = ProjectModel { name, start: today, week_to_show: 0, tasks: Seq::empty() };
        AppModel {
            projects: self.projects.push(p),
            active_project_index: self.current,
            current: self.projects.len() as usize,
            history: Seq::empty(),
            redo: Seq::empty(),
            selected: None,
            focus_area: FocusArea::Project(ProjectField::Name),
            status: "New project '"@ + name + "' created."@,
            next_task_id: 1,
            ..self
        }
    }
}

/// The model of what was loaded from disk, if anything.
pub open spec fn loaded_model(loaded: Option<AllProjectsData>) -> Option<AllProjectsModel> {
    match loaded {
        Some(d) => Some(d@),
        None => None,
    }
}

/// The state of a planner before it has loaded anything.
pub open spec fn initial_state(today: i32) -> AppModel {
    AppModel {
        projects: Seq::empty(),
        active_project_index: 0,
        current: 0,
        today,
        selected: None,
        input_mode: InputMode::Normal,
        focus_area: FocusArea::Tasks,
        selected_task_field: TaskField::Name,
        input_buffer: Seq::empty(),
        next_task_id: 1,
        should_quit: false,
        status: "Welcome! Press 'q' to quit."@,
        history: Seq::empty(),
        redo: Seq::empty(),
        file_path: "projects.json"@,
        details_view_open: false,
        details_buffer: Seq::empty(),
        highlight_mode: HighlightMode::Today,
    }
}

/// The state with what was loaded in place (or the sample project where
/// nothing was), before the first row is selected and before scheduling.
pub open spec fn with_loaded(a: AppModel, loaded: Option<AllProjectsModel>) -> AppModel {
    match loaded {
        Some(d) => AppModel {
            projects: d.projects,
            active_project_index: d.active_project_index,
            current: d.active_project_index,
            history: Seq::empty(),
            redo: Seq::empty(),
            status: "Projects loaded successfully from "@ + a.file_path + "."@,
            ..a
        },
        None => AppModel {
            status: "Failed to load projects from "@ + a.file_path + ". Starting with a new default project."@,
            ..a
        }.with_sample_project(),
    }
}

/// The first row is selected where the current project has tasks; the
/// project name is focused otherwise.
pub open spec fn with_first_focus(b: AppModel) -> AppModel {
    if b.tasks().len() > 0 {
        AppModel { selected: Some(0), focus_area: FocusArea::Tasks, ..b }
    } else {
        AppModel { focus_area: FocusArea::Project(ProjectField::Name), ..b }
    }
}

/// The state of a planner started on `today` with what was loaded.
pub open spec fn started(loaded: Option<AllProjectsModel>, today: i32) -> AppModel {
    with_first_focus(with_loaded(initial_state(today), loaded)).rescheduled()
}

/// Loaded projects a planner can start with: there is a project, the
/// active index names one, every date is on the calendar, and the active
/// project can be scheduled with every date on the calendar.
pub open spec fn loaded_usable(d: AllProjectsModel) -> bool {
    &&& d.projects.len() > 0
    &&& d.active_project_index < d.projects.len()
    &&& all_dates_valid(d.projects)
    &&& schedule_fits(d.projects[d.active_project_index as int].tasks, d.projects[d.active_project_index as int].start)
}

/// The first day of the sample project (2024-08-01).
pub const SAMPLE_PROJECT_START: i32 = 739099i32;

// ---------------------------------------------------------------------
// Lemmas on the invariant

proof fn lemma_update_keeps_dates(ps: Seq<ProjectModel>, i: int, p: ProjectModel)
    requires
        all_dates_valid(ps),
        p.dates_valid(),
        0 <= i < ps.len(),
    ensures
        all_dates_valid(ps.update(i, p)),
{
    assert forall|j: int| 0 <= j < ps.update(i, p).len() implies (#[trigger] ps.update(i, p)[j]).dates_valid() by {
        if j != i {
            assert(ps.update(i, p)[j] == ps[j]);
        }
    }
}

pub(crate) proof fn lemma_update_keeps_dates_pub(ps: Seq<ProjectModel>, i: int, p: ProjectModel)
    requires
        all_dates_valid(ps),
        p.dates_valid(),
        0 <= i < ps.len(),
    ensures
        all_dates_valid(ps.update(i, p)),
{
    lemma_update_keeps_dates(ps, i, p);
}

proof fn lemma_push_keeps_dates(ps: Seq<ProjectModel>, p: ProjectModel)
    requires
        all_dates_valid(ps),
        p.dates_valid(),
    ensures
        all_dates_valid(ps.push(p)),
{
    assert forall|j: int| 0 <= j < ps.push(p).len() implies (#[trigger] ps.push(p)[j]).dates_valid() by {
        if j < ps.len() {
            assert(ps.push(p)[j] == ps[j]);
        }
    }
}

proof fn lemma_drop_last_keeps_dates(ps: Seq<ProjectModel>)
    requires
        all_dates_valid(ps),
        ps.len() > 0,
    ensures
        all_dates_valid(ps.drop_last()),
        ps.last().dates_valid(),
{
    assert forall|j: int| 0 <= j < ps.drop_last().len() implies (#[trigger] ps.drop_last()[j]).dates_valid() by {
        assert(ps.drop_last()[j] == ps[j]);
    }
    assert(ps.last() == ps[ps.len() - 1]);
}

/// A project with valid dates has valid manual start dates.
proof fn lemma_manual_dates(p: ProjectModel)
    requires
        p.dates_valid(),
    ensures
        manual_dates_valid(p.tasks),
        day_in_range(p.start as int),
{
    assert forall|i: int| 0 <= i < p.tasks.len() implies ((#[trigger] p.tasks[i]).manual_start_date matches Some(d) ==> day_in_range(d as int)) by {
        assert(task_dates_valid(p.tasks[i]));
    }
}

/// Scheduling keeps the dates valid.
proof fn lemma_scheduled_dates(p: ProjectModel)
    requires
        p.dates_valid(),
        calc_in_range(placement(p.tasks, p.start).0),
    ensures
        (ProjectModel { tasks: scheduled_tasks(p.tasks, p.start), ..p }).dates_valid(),
{
    let q = ProjectModel { tasks: scheduled_tasks(p.tasks, p.start), ..p };
    assert forall|i: int| 0 <= i < q.tasks.len() implies task_dates_valid(#[trigger] q.tasks[i]) by {
        assert(task_dates_valid(p.tasks[i]));
    }
}

/// Renumbering keeps the dates valid.
proof fn lemma_renumbered_dates(p: ProjectModel)
    requires
        p.dates_valid(),
    ensures
        (ProjectModel { tasks: renumbered(p.tasks), ..p }).dates_valid(),
{
    let q = ProjectModel { tasks: renumbered(p.tasks), ..p };
    assert forall|i: int| 0 <= i < q.tasks.len() implies task_dates_valid(#[trigger] q.tasks[i]) by {
        assert(task_dates_valid(p.tasks[i]));
    }
}

// ---------------------------------------------------------------------
// The sample project

fn sample_project() -> (p: ProjectData)
    ensures
        p@ == sample_project_model(),
{
    let mut tasks: Vec<Task> = Vec::new();
    tasks.push(Task::new(chars_of("Requirement Gathering"), chars_of("Alice"), 5, 100, Vec::new()));
    let mut deps: Vec<u32> = Vec::new();
    deps.push(1);
    tasks.push(Task::new(chars_of("UI/UX Design"), chars_of("Bob"), 7, 50, deps));
    let p = ProjectData {
        project_name: chars_of("New Project"),
        project_start_date: SAMPLE_PROJECT_START,
        week_to_show: 0,
        tasks,
    };
    assert(p@.tasks =~= sample_project_model().tasks);
    p
}

/// A task of the given name, assignee, duration, progress and
/// dependencies, with nothing else set.
pub open spec fn plain_task(name: Seq<char>, assigned_to: Seq<char>, duration: i64, progress: u8, deps: Seq<u32>) -> TaskModel {
    TaskModel {
        id: 0,
        name,
        assigned_to,
        duration,
        progress,
        dependencies: deps,
        manual_start_date: None,
        details: None,
        start_date: None,
        end_date: None,
    }
}

/// The project a planner starts with when it loads nothing.
pub open spec fn sample_project_model() -> ProjectModel {
    ProjectModel {
        name: "New Project"@,
        start: SAMPLE_PROJECT_START,
        week_to_show: 0,
        tasks: seq![
            plain_task("Requirement Gathering"@, "Alice"@, 5, 100, Seq::empty()),
            plain_task("UI/UX Design"@, "Bob"@, 7, 50, seq![1u32]),
        ],
    }
}

proof fn lemma_sample_dates()
    ensures
        sample_project_model().dates_valid(),
{
    let p = sample_project_model();
    assert forall|i: int| 0 <= i < p.tasks.len() implies task_dates_valid(#[trigger] p.tasks[i]) by {}
}

/// A project without tasks schedules to nothing, and the next id is 1.
proof fn lemma_empty_schedule(start: i32)
    ensures
        schedule_fits(Seq::<TaskModel>::empty(), start),
        scheduled_tasks(Seq::<TaskModel>::empty(), start) == Seq::<TaskModel>::empty(),
        max_task_id(Seq::<TaskModel>::empty()) == 0,
        calc_in_range(placement(Seq::<TaskModel>::empty(), start).0),
{
    assert(crate::schedule::task_ids(Seq::<TaskModel>::empty()) =~= Seq::<u32>::empty());
    assert(scheduled_tasks(Seq::<TaskModel>::empty(), start) =~= Seq::<TaskModel>::empty());
}

/// The sample project schedules without a panic.
proof fn lemma_sample_fits()
    ensures
        schedule_fits(sample_project_model().tasks, sample_project_model().start),
{
    let p = sample_project_model();
    let tasks = p.tasks;
    let ids = crate::schedule::task_ids(tasks);
    assert(ids =~= seq![0u32, 0u32]);
    assert(crate::schedule::last_index_of_id(tasks, 0) == 1);
    assert(!crate::schedule::has_task_id(tasks, 1)) by {
        assert(tasks[0].id == 0 && tasks[1].id == 0);
    }
    let first = crate::schedule::round(tasks, p.start, Map::empty(), true, ids.drop_last());
    assert(ids.drop_last().drop_last() =~= Seq::<u32>::empty());
    let zero = crate::schedule::round(tasks, p.start, Map::empty(), true, ids.drop_last().drop_last());
    assert(zero.ok && zero.calc == Map::<u32, (i32, i32)>::empty());
    assert(tasks[1].dependencies == seq![1u32]);
    assert(tasks[1].dependencies.drop_last() =~= Seq::<u32>::empty());
    assert(crate::schedule::latest_end(Map::empty(), Seq::<u32>::empty()) is None);
    assert(crate::schedule::deps_ready(tasks, Map::empty(), tasks[1].dependencies));
    assert(crate::schedule::latest_end(Map::empty(), tasks[1].dependencies) is None);
    assert(crate::schedule::planned_start(tasks[1], p.start, Map::empty()) == p.start);
    assert(first.ok);
    assert(crate::schedule::deps_ready(tasks, first.calc, tasks[1].dependencies));
    assert(crate::schedule::latest_end(first.calc, Seq::<u32>::empty()) is None);
    assert(crate::schedule::latest_end(first.calc, tasks[1].dependencies) is None);
    let r = crate::schedule::round(tasks, p.start, Map::empty(), true, ids);
    assert(r.ok);
    assert(r.waiting =~= Seq::<u32>::empty());
    assert(tasks.drop_last().drop_last() =~= Seq::<TaskModel>::empty());
    assert(max_task_id(tasks.drop_last().drop_last()) == 0);
    assert(max_task_id(tasks.drop_last()) == 0);
    assert(max_task_id(tasks) == 0);
    assert(crate::schedule::rounds(tasks, p.start, r.calc, r.ok, r.waiting, 1) == (r.calc, r.ok));
    assert(placement(tasks, p.start).1);
}

// ---------------------------------------------------------------------
// Commands

impl App {
    /// The current project.
    pub fn get_current_project(&self) -> (p: &ProjectData)
        requires
            self@.wf(),
        ensures
            p@ == self@.cur(),
    {
        &self.all_projects.projects[self.current_project_index]
    }

    /// Puts `p` in the place of the current project and returns the
    /// project that was there.
    pub(crate) fn swap_current(&mut self, p: ProjectData) -> (prev: ProjectData)
        requires
            old(self)@.current < old(self)@.projects.len(),
        ensures
            prev@ == old(self)@.cur(),
            final(self)@ == old(self)@.with_current(p@),
    {
        let i = self.current_project_index;
        let prev = self.all_projects.projects.remove(i);
        self.all_projects.projects.insert(i, p);
        assert(self@.projects =~= old(self)@.projects.update(i as int, p@));
        prev
    }

    /// Schedules the current project and sets the id the next new task
    /// gets.
    pub fn recalculate_schedule(&mut self)
        requires
            old(self)@.wf(),
            old(self)@.can_reschedule(),
        ensures
            final(self)@ == old(self)@.rescheduled(),
            final(self)@.wf(),
    {
        let ghost a = self@;
        let mut p = self.swap_current(blank_project());
        proof {
            assert(a.projects[a.current as int] == a.cur());
            lemma_manual_dates(p@);
        }
        let next = schedule_tasks(&mut p.tasks, p.project_start_date);
        self.next_task_id = next;
        self.swap_current(p);
        proof {
            assert(self@.projects =~= a.rescheduled().projects);
            lemma_scheduled_dates(a.cur());
            lemma_update_keeps_dates(a.projects, a.current as int, a.rescheduled().cur());
        }
    }

    /// Renumbers the current project's tasks (see `remap`) and schedules it.
    pub fn remap_ids_and_dependencies(&mut self)
        requires
            old(self)@.wf(),
            old(self)@.renumbered().can_reschedule(),
        ensures
            final(self)@ == old(self)@.remapped(),
            final(self)@.wf(),
    {
        let ghost a = self@;
        let mut p = self.swap_current(blank_project());
        renumber_tasks(&mut p.tasks);
        self.swap_current(p);
        proof {
            assert(self@.projects =~= a.renumbered().projects);
            lemma_renumbered_dates(a.cur());
            lemma_update_keeps_dates(a.projects, a.current as int, a.renumbered().cur());
        }
        self.recalculate_schedule();
    }

    /// Saves the current project for undo and drops the redo history.
    pub fn save_state_for_undo(&mut self)
        requires
            old(self)@.wf(),
        ensures
            final(self)@ == old(self)@.with_undo_point(),
            final(self)@.wf(),
    {
        let p = self.get_current_project().duplicate();
        self.history.push(p);
        self.redo_history.clear();
        proof {
            assert(self@.history =~= old(self)@.history.push(old(self)@.cur()));
            assert(self@.redo =~= Seq::<ProjectModel>::empty());
            lemma_push_keeps_dates(old(self)@.history, old(self)@.cur());
        }
    }

    /// Undo: restores the latest saved state of the current project.
    pub fn undo(&mut self)
        requires
            old(self)@.wf(),
            old(self)@.can_undo(),
        ensures
            final(self)@ == old(self)@.undone(),
            final(self)@.wf(),
    {
        let ghost a = self@;
        match self.history.pop() {
            Some(previous_state) => {
                proof {
                    lemma_drop_last_keeps_dates(a.history);
                    assert(a.history.last() == previous_state@);
                }
                let p = self.swap_current(previous_state);
                self.redo_history.push(p);
                proof {
                    lemma_push_keeps_dates(a.redo, a.cur());
                    lemma_update_keeps_dates(a.projects, a.current as int, a.history.last());
                    assert(self@.history =~= a.history.drop_last());
                    assert(self@.redo =~= a.redo.push(a.cur()));
                }
                self.recalculate_schedule();
                self.status_message = chars_of("Undo successful.");
            },
            None => {
                self.status_message = chars_of("Nothing to undo.");
            },
        }
    }

    /// Redo: restores the latest undone state of the current project.
    pub fn redo(&mut self)
        requires
            old(self)@.wf(),
            old(self)@.can_redo(),
        ensures
            final(self)@ == old(self)@.redone(),
            final(self)@.wf(),
    {
        let ghost a = self@;
        match self.redo_history.pop() {
            Some(next_state) => {
                proof {
                    lemma_drop_last_keeps_dates(a.redo);
                    assert(a.redo.last() == next_state@);
                }
                let p = self.swap_current(next_state);
                self.history.push(p);
                proof {
                    lemma_push_keeps_dates(a.history, a.cur());
                    lemma_update_keeps_dates(a.projects, a.current as int, a.redo.last());
                    assert(self@.redo =~= a.redo.drop_last());
                    assert(self@.history =~= a.history.push(a.cur()));
                }
                self.recalculate_schedule();
                self.status_message = chars_of("Redo successful.");
            },
            None => {
                self.status_message = chars_of("Nothing to redo.");
            },
        }
    }

    /// Adds `task` below the selected row, or at the end when no row is
    /// selected, giving it the next id; then renumbers and schedules.
    /// Returns the new task's row.
    pub fn add_task(&mut self, task: Task) -> (new_task_index: usize)
        requires
            old(self)@.wf(),
            task_dates_valid(task@),
            old(self)@.can_add_task(task@),
        ensures
            final(self)@ == old(self)@.with_added_task(task@).0.remapped(),
            new_task_index == old(self)@.with_added_task(task@).1,
            final(self)@.wf(),
    {
        let ghost a = self@;
        self.save_state_for_undo();
        let mut task = task;
        task.id = self.next_task_id;
        let ghost t2 = task@;
        let mut p = self.swap_current(blank_project());
        assert(p@ == a.cur());
        assert(p.tasks@.len() == a.tasks().len());
        let new_task_index;
        assert(self.selected == a.selected);
        match self.selected {
            Some(idx) => {
                let n = p.tasks.len();
                assert(idx < n);
                p.tasks.insert(idx + 1, task);
                new_task_index = idx + 1;
                proof { assert(tasks_model(p.tasks@) =~= a.tasks().insert(idx + 1, t2)); }
            },
            None => {
                p.tasks.push(task);
                new_task_index = p.tasks.len() - 1;
                proof { assert(tasks_model(p.tasks@) =~= a.tasks().push(t2)); }
            },
        }
        self.swap_current(p);
        proof {
            let b = a.with_added_task(task@).0;
            assert(self@.projects =~= b.projects);
            assert(self@ == b);
            assert(b.cur().dates_valid()) by {
                assert forall|j: int| 0 <= j < b.cur().tasks.len() implies task_dates_valid(#[trigger] b.cur().tasks[j]) by {
                    assert(a.cur().dates_valid());
                    if a.selected is Some {
                        let ins = a.selected->0 + 1;
                        if j < ins {
                            assert(b.cur().tasks[j] == a.tasks()[j]);
                        } else if j > ins {
                            assert(b.cur().tasks[j] == a.tasks()[j - 1]);
                        }
                    } else if j < a.tasks().len() {
                        assert(b.cur().tasks[j] == a.tasks()[j]);
                    }
                }
            }
            lemma_update_keeps_dates(a.projects, a.current as int, b.cur());
        }
        self.remap_ids_and_dependencies();
        new_task_index
    }

    /// Deletes the selected task, when a task row is selected, and picks
    /// the row to select next; then renumbers and schedules.
    pub fn delete_selected_task(&mut self)
        requires
            old(self)@.wf(),
            old(self)@.can_delete_selected(),
        ensures
            final(self)@ == old(self)@.deleted_selected(),
            final(self)@.wf(),
    {
        let ghost a = self@;
        if self.focus_area == FocusArea::Tasks {
            if let Some(selected_index) = self.selected {
                self.save_state_for_undo();
                let mut new_selected_index: Option<usize> = None;
                let mut new_focus_area = self.focus_area;
                let mut p = self.swap_current(blank_project());
                if selected_index < p.tasks.len() {
                    p.tasks.remove(selected_index);
                    let l = p.tasks.len();
                    if selected_index > 0 && l > 0 && selected_index >= l {
                        new_selected_index = Some(l - 1);
                    } else if l == 0 {
                        new_selected_index = None;
                        new_focus_area = FocusArea::Project(ProjectField::WeekToShow);
                    } else if selected_index < l {
                        new_selected_index = Some(selected_index);
                    } else if l > 0 {
                        new_selected_index = Some(l - 1);
                    }
                    proof { assert(tasks_model(p.tasks@) =~= a.tasks().remove(selected_index as int)); }
                }
                self.swap_current(p);
                self.selected = new_selected_index;
                self.focus_area = new_focus_area;
                proof {
                    let b = a.with_selected_deleted();
                    assert(self@.projects =~= b.projects);
                    assert(self@ == b);
                    assert(b.cur().dates_valid()) by {
                        assert forall|j: int| 0 <= j < b.cur().tasks.len() implies task_dates_valid(#[trigger] b.cur().tasks[j]) by {
                            assert(a.cur().dates_valid());
                            if j < selected_index {
                                assert(b.cur().tasks[j] == a.tasks()[j]);
                            } else {
                                assert(b.cur().tasks[j] == a.tasks()[j + 1]);
                            }
                        }
                    }
                    lemma_update_keeps_dates(a.projects, a.current as int, b.cur());
                }
                self.remap_ids_and_dependencies();
            }
        }
    }

    /// Moves the selected task one row up (when it is not the first row);
    /// then renumbers and schedules.
    pub fn move_task_up(&mut self)
        requires
            old(self)@.wf(),
            old(self)@.can_move_up(),
        ensures
            final(self)@ == old(self)@.moved_up(),
            final(self)@.wf(),
    {
        let ghost a = self@;
        if self.focus_area == FocusArea::Tasks {
            if let Some(selected_index) = self.selected {
                if selected_index > 0 {
                    self.save_state_for_undo();
                    let new_selected_index = selected_index - 1;
                    let mut p = self.swap_current(blank_project());
                    let t = p.tasks.remove(selected_index);
                    p.tasks.insert(new_selected_index, t);
                    proof {
                        assert(tasks_model(p.tasks@) =~= a.tasks_swapped(selected_index as int, selected_index - 1));
                    }
                    self.swap_current(p);
                    self.selected = Some(new_selected_index);
                    proof {
                        let b = a.with_selected_up();
                        assert(self@.projects =~= b.projects);
                        assert(self@ == b);
                        assert(b.cur().dates_valid()) by {
                            assert forall|j: int| 0 <= j < b.cur().tasks.len() implies task_dates_valid(#[trigger] b.cur().tasks[j]) by {
                                assert(a.cur().dates_valid());
                                assert(task_dates_valid(a.tasks()[j]));
                                assert(task_dates_valid(a.tasks()[selected_index as int]));
                                assert(task_dates_valid(a.tasks()[selected_index - 1]));
                            }
                        }
                        lemma_update_keeps_dates(a.projects, a.current as int, b.cur());
                    }
                }
                self.remap_ids_and_dependencies();
            }
        }
    }

    /// Moves the selected task one row down (when it is not the last row);
    /// then renumbers and schedules.
    pub fn move_task_down(&mut self)
        requires
            old(self)@.wf(),
            old(self)@.can_move_down(),
        ensures
            final(self)@ == old(self)@.moved_down(),
            final(self)@.wf(),
    {
        let ghost a = self@;
        if self.focus_area == FocusArea::Tasks {
            if let Some(selected_index) = self.selected {
                let current_project_len = self.get_current_project().tasks.len();
                if selected_index < current_project_len - 1 {
                    self.save_state_for_undo();
                    let new_selected_index = selected_index + 1;
                    let mut p = self.swap_current(blank_project());
                    let t = p.tasks.remove(new_selected_index);
                    p.tasks.insert(selected_index, t);
                    proof {
                        assert(tasks_model(p.tasks@) =~= a.tasks_swapped(selected_index as int, selected_index + 1));
                    }
                    self.swap_current(p);
                    self.selected = Some(new_selected_index);
                    proof {
                        let b = AppModel {
                            selected: Some((selected_index + 1) as usize),
                            ..a.with_undo_point().with_tasks(a.tasks_swapped(selected_index as int, selected_index + 1))
                        };
                        assert(self@.projects =~= b.projects);
                        assert(self@ == b);
                        assert(b.cur().dates_valid()) by {
                            assert forall|j: int| 0 <= j < b.cur().tasks.len() implies task_dates_valid(#[trigger] b.cur().tasks[j]) by {
                                assert(a.cur().dates_valid());
                                assert(task_dates_valid(a.tasks()[j]));
                                assert(task_dates_valid(a.tasks()[selected_index as int]));
                                assert(task_dates_valid(a.tasks()[selected_index + 1]));
                            }
                        }
                        lemma_update_keeps_dates(a.projects, a.current as int, b.cur());
                    }
                    self.remap_ids_and_dependencies();
                }
            }
        }
    }

    /// Marks the current project as the active one and returns every
    /// project as it is to be written to disk.
    pub fn save_all_projects(&mut self) -> (saved: AllProjectsData)
        requires
            old(self)@.wf(),
        ensures
            final(self)@ == (AppModel { active_project_index: old(self)@.current, ..old(self)@ }),
            saved@ == old(self)@.saved_projects(),
    {
        self.all_projects.active_project_index = self.current_project_index;
        self.all_projects.duplicate()
    }

    /// Reports how writing the projects went.
    pub fn finish_save(&mut self, written: bool)
        ensures
            final(self)@ == (AppModel {
                status: if written {
                    "All projects saved successfully to "@ + old(self)@.file_path + "!"@
                } else {
                    "Failed to save projects."@
                },
                ..old(self)@
            }),
    {
        if written {
            let m = concat(&chars_of("All projects saved successfully to "), &self.current_file_path);
            self.status_message = concat(&m, &chars_of("!"));
        } else {
            self.status_message = chars_of("Failed to save projects.");
        }
    }

    fn switch_to(&mut self, k: usize)
        requires
            old(self)@.wf(),
            k < old(self)@.projects.len(),
            old(self)@.active_project_index == old(self)@.current,
            old(self)@.can_switch_to(k as int),
        ensures
            final(self)@ == old(self)@.switched_to(k as int),
            final(self)@.wf(),
    {
        let ghost a = self@;
        self.current_project_index = k;
        let name = &self.get_current_project().project_name;
        self.status_message = concat(&chars_of("Switched to project: "), name);
        self.recalculate_schedule();
        self.selected = Some(0);
    }

    /// Switches to the next project, cyclically, after saving every project;
    /// returns what is to be saved, or `None` (and a message) when there is
    /// no other project.
    pub fn next_project(&mut self) -> (saved: Option<AllProjectsData>)
        requires
            old(self)@.wf(),
            old(self)@.projects.len() > 1 ==> old(self)@.can_switch_to(old(self)@.next_index()),
        ensures
            final(self)@ == old(self)@.after_next_project(),
            final(self)@.wf(),
            saved is Some <==> old(self)@.projects.len() > 1,
            saved matches Some(d) ==> d@ == old(self)@.saved_projects(),
    {
        let n = self.all_projects.projects.len();
        if n > 1 {
            let saved = self.save_all_projects();
            let k = (self.current_project_index + 1) % n;
            self.switch_to(k);
            Some(saved)
        } else {
            self.status_message = chars_of("No other projects to switch to.");
            None
        }
    }

    /// Switches to the previous project, cyclically, after saving every
    /// project; returns what is to be saved, or `None` (and a message) when
    /// there is no other project.
    pub fn previous_project(&mut self) -> (saved: Option<AllProjectsData>)
        requires
            old(self)@.wf(),
            old(self)@.projects.len() > 1 ==> old(self)@.can_switch_to(old(self)@.previous_index()),
        ensures
            final(self)@ == old(self)@.after_previous_project(),
            final(self)@.wf(),
            saved is Some <==> old(self)@.projects.len() > 1,
            saved matches Some(d) ==> d@ == old(self)@.saved_projects(),
    {
        let n = self.all_projects.projects.len();
        if n > 1 {
            let saved = self.save_all_projects();
            let c = self.current_project_index;
            let k = if c == 0 { n - 1 } else { c - 1 };
            assert(k as int == (c + n - 1) % (n as int)) by (nonlinear_arith)
                requires c < n, n > 1, k == (if c == 0 { n - 1 } else { c - 1 });
            self.switch_to(k);
            Some(saved)
        } else {
            self.status_message = chars_of("No other projects to switch to.");
            None
        }
    }

    /// Adds the sample project and makes it current, dropping the history.
    pub fn add_default_project(&mut self)
        requires
            old(self)@.projects.len() < usize::MAX,
            all_dates_valid(old(self)@.projects),
        ensures
            final(self)@ == old(self)@.with_sample_project(),
            all_dates_valid(final(self)@.projects),
    {
        let p = sample_project();
        self.all_projects.projects.push(p);
        self.current_project_index = self.all_projects.projects.len() - 1;
        self.history.clear();
        self.redo_history.clear();
        proof {
            lemma_sample_dates();
            lemma_push_keeps_dates(old(self)@.projects, sample_project_model());
            assert(self@.projects =~= old(self)@.projects.push(sample_project_model()));
            assert(self@.history =~= Seq::<ProjectModel>::empty());
            assert(self@.redo =~= Seq::<ProjectModel>::empty());
        }
    }

    /// Creates a new, empty project that starts `today` and makes it
    /// current; returns every project as it is to be saved first.
    pub fn add_new_project_on(&mut self, today: i32) -> (saved: AllProjectsData)
        requires
            old(self)@.wf(),
            day_in_range(today as int),
            old(self)@.projects.len() < usize::MAX,
        ensures
            final(self)@ == old(self)@.with_new_project(today),
            final(self)@.wf(),
            saved@ == old(self)@.saved_projects(),
    {
        let ghost a = self@;
        let saved = self.save_all_projects();
        let n = self.all_projects.projects.len();
        let number = decimal_text((n + 1) as u64);
        let new_project_name = concat(&chars_of("New Project "), &number);
        let new_project = ProjectData {
            project_name: crate::text::copy_chars(&new_project_name),
            project_start_date: today,
            week_to_show: 0,
            tasks: Vec::new(),
        };
        proof {
            assert(new_project@.tasks =~= Seq::<TaskModel>::empty());
            lemma_empty_schedule(today);
            assert(new_project@.dates_valid());
            lemma_push_keeps_dates(a.projects, new_project@);
        }
        self.all_projects.projects.push(new_project);
        self.current_project_index = self.all_projects.projects.len() - 1;
        self.history.clear();
        self.redo_history.clear();
        proof {
            assert(self@.projects =~= a.projects.push(new_project@));
            assert(self@.history =~= Seq::<ProjectModel>::empty());
            assert(self@.redo =~= Seq::<ProjectModel>::empty());
        }
        self.recalculate_schedule();
        self.selected = None;
        self.focus_area = FocusArea::Project(ProjectField::Name);
        let m = concat(&chars_of("New project '"), &new_project_name);
        self.status_message = concat(&m, &chars_of("' created."));
        proof {
            let b = a.with_new_project(today);
            assert(self@.projects =~= b.projects);
        }
        saved
    }

    /// Creates a new, empty project that starts on the local date and makes
    /// it current; returns every project as it is to be saved first.
    pub fn add_new_project(&mut self) -> (saved: AllProjectsData)
        requires
            old(self)@.wf(),
            old(self)@.projects.len() < usize::MAX,
        ensures
            exists|today: i32| day_in_range(today as int) && final(self)@ == old(self)@.with_new_project(today),
            final(self)@.wf(),
            saved@ == old(self)@.saved_projects(),
    {
        let today = local_today();
        self.add_new_project_on(today)
    }

    /// Starts a planner on `today` with the projects loaded from disk, or
    /// with the sample project where nothing could be loaded.
    pub fn start(loaded: Option<AllProjectsData>, today: i32) -> (app: App)
        requires
            day_in_range(today as int),
            loaded matches Some(d) ==> loaded_usable(d@),
        ensures
            app@ == started(loaded_model(loaded), today),
            app@.wf(),
    {
        let ghost lm = loaded_model(loaded);
        let mut app = App {
            all_projects: AllProjectsData { projects: Vec::new(), active_project_index: 0 },
            current_project_index: 0,
            today,
            selected: None,
            input_mode: InputMode::Normal,
            focus_area: FocusArea::Tasks,
            selected_task_field: TaskField::Name,
            input_buffer: Vec::new(),
            next_task_id: 1,
            should_quit: false,
            status_message: chars_of("Welcome! Press 'q' to quit."),
            history: Vec::new(),
            redo_history: Vec::new(),
            current_file_path: chars_of("projects.json"),
            details_view_open: false,
            details_buffer: Vec::new(),
            highlight_mode: HighlightMode::Today,
        };
        proof {
            assert(app@.projects =~= Seq::<ProjectModel>::empty());
            assert(app@.history =~= Seq::<ProjectModel>::empty());
            assert(app@.redo =~= Seq::<ProjectModel>::empty());
            assert(app@ == initial_state(today));
        }
        match loaded {
            Some(all_projects) => {
                app.current_project_index = all_projects.active_project_index;
                app.all_projects = all_projects;
                app.history.clear();
                app.redo_history.clear();
                let m = concat(&chars_of("Projects loaded successfully from "), &app.current_file_path);
                app.status_message = concat(&m, &chars_of("."));
                proof {
                    assert(app@.history =~= Seq::<ProjectModel>::empty());
                    assert(app@.redo =~= Seq::<ProjectModel>::empty());
                }
            },
            None => {
                let m = concat(&chars_of("Failed to load projects from "), &app.current_file_path);
                app.status_message = concat(&m, &chars_of(". Starting with a new default project."));
                app.add_default_project();
                proof { lemma_sample_fits(); }
            },
        }
        assert(app@ == with_loaded(initial_state(today), lm));
        if app.get_current_project().tasks.len() > 0 {
            app.selected = Some(0);
            app.focus_area = FocusArea::Tasks;
        } else {
            app.focus_area = FocusArea::Project(ProjectField::Name);
        }
        app.recalculate_schedule();
        app
    }

    /// Starts a planner with what was loaded from disk (or nothing),
    /// reading today's date from the clock. Returns `None` where the planner
    /// cannot start: the loaded projects are empty, the active index names
    /// no project, or the active project cannot be scheduled.
    pub fn new(loaded: Option<AllProjectsData>) -> (r: Option<App>)
        ensures
            r is None <==> (loaded matches Some(d) && !loaded_usable(d@)),
            r matches Some(app) ==> app@.wf() && exists|today: i32| day_in_range(today as int) && app@ == started(loaded_model(loaded), today),
    {
        let usable = match &loaded {
            Some(d) => loaded_is_usable(d),
            None => true,
        };
        if !usable {
            return None;
        }
        let today = local_today();
        Some(App::start(loaded, today))
    }
}


/// A project with no name and no tasks, starting on day 1.
pub(crate) fn blank_project() -> (p: ProjectData)
    ensures
        p@ == (ProjectModel { name: Seq::empty(), start: 1, week_to_show: 0, tasks: Seq::empty() }),
{
    let p = ProjectData { project_name: Vec::new(), project_start_date: 1, week_to_show: 0, tasks: Vec::new() };
    assert(p@.tasks =~= Seq::<TaskModel>::empty());
    assert(p@.name =~= Seq::<char>::empty());
    p
}

/// Whether the day is on the calendar.
fn day_ok(d: i32) -> (b: bool)
    ensures
        b == day_in_range(d as int),
{
    crate::date::MIN_DAY <= d && d <= crate::date::MAX_DAY
}

/// Whether every date of the task is on the calendar.
fn task_dates_ok(t: &Task) -> (r: bool)
    ensures
        r == task_dates_valid(t@),
{
    (match t.manual_start_date { Some(d) => day_ok(d), None => true })
        && (match t.start_date { Some(d) => day_ok(d), None => true })
        && (match t.end_date { Some(d) => day_ok(d), None => true })
}

/// Whether every date of the project is on the calendar.
pub fn project_dates_ok(p: &ProjectData) -> (r: bool)
    ensures
        r == p@.dates_valid(),
{
    if !(crate::date::MIN_DAY <= p.project_start_date && p.project_start_date <= crate::date::MAX_DAY) {
        return false;
    }
    for i in 0..p.tasks.len()
        invariant
            forall|j: int| 0 <= j < i ==> task_dates_valid(#[trigger] p@.tasks[j]),
    {
        if !task_dates_ok(&p.tasks[i]) {
            assert(!task_dates_valid(p@.tasks[i as int]));
            return false;
        }
    }
    true
}

/// Whether a planner can start with these loaded projects (see
/// `loaded_usable`).
pub fn loaded_is_usable(d: &AllProjectsData) -> (r: bool)
    ensures
        r == loaded_usable(d@),
{
    let n = d.projects.len();
    if n == 0 || d.active_project_index >= n {
        return false;
    }
    for i in 0..n
        invariant
            n == d.projects@.len(),
            forall|j: int| 0 <= j < i ==> (#[trigger] projects_model(d.projects@)[j]).dates_valid(),
    {
        if !project_dates_ok(&d.projects[i]) {
            assert(!projects_model(d.projects@)[i as int].dates_valid());
            return false;
        }
    }
    let p = &d.projects[d.active_project_index];
    proof {
        assert(projects_model(d.projects@)[d.active_project_index as int] == p@);
        assert(p@.dates_valid());
        lemma_manual_dates(p@);
    }
    crate::schedule::schedule_would_fit(&p.tasks, p.project_start_date)
}

} // verus!
