//! The planner's data: tasks, projects and the set of all projects, each
//! with a mathematical model that the contracts speak of.
use vstd::prelude::*;
use crate::date::day_in_range;

verus! {

/// One task of a project. Text is kept as characters; dates are day
/// numbers (see `date`).
pub struct Task {
    pub id: u32,
    pub name: Vec<char>,
    pub assigned_to: Vec<char>,
    pub duration: i64,
    pub progress: u8,
    pub dependencies: Vec<u32>,
    pub manual_start_date: Option<i32>,
    pub details: Option<Vec<char>>,
    /// Computed by the scheduler, never stored.
    pub start_date: Option<i32>,
    /// Computed by the scheduler, never stored.
    pub end_date: Option<i32>,
}

/// The model of a `Task`.
pub struct TaskModel {
    pub id: u32,
    pub name: Seq<char>,
    pub assigned_to: Seq<char>,
    pub duration: i64,
    pub progress: u8,
    pub dependencies: Seq<u32>,
    pub manual_start_date: Option<i32>,
    pub details: Option<Seq<char>>,
    pub start_date: Option<i32>,
    pub end_date: Option<i32>,
}

pub open spec fn text_opt_view(o: Option<Vec<char>>) -> Option<Seq<char>> {
    match o {
        Some(v) => Some(v@),
        None => None,
    }
}

impl View for Task {
    type V = TaskModel;

    open spec fn view(&self) -> TaskModel {
        TaskModel {
            id: self.id,
            name: self.name@,
            assigned_to: self.assigned_to@,
            duration: self.duration,
            progress: self.progress,
            dependencies: self.dependencies@,
            manual_start_date: self.manual_start_date,
            details: text_opt_view(self.details),
            start_date: self.start_date,
            end_date: self.end_date,
        }
    }
}

/// The models of a sequence of tasks.
pub open spec fn tasks_model(v: Seq<Task>) -> Seq<TaskModel> {
    v.map_values(|t: Task| t@)
}

/// One project: a name, a start date, the week the chart shows, and tasks.
pub struct ProjectData {
    pub project_name: Vec<char>,
    pub project_start_date: i32,
    pub week_to_show: u32,
    pub tasks: Vec<Task>,
}

/// The model of a `ProjectData`.
pub struct ProjectModel {
    pub name: Seq<char>,
    pub start: i32,
    pub week_to_show: u32,
    pub tasks: Seq<TaskModel>,
}

impl View for ProjectData {
    type V = ProjectModel;

    open spec fn view(&self) -> ProjectModel {
        ProjectModel {
            name: self.project_name@,
            start: self.project_start_date,
            week_to_show: self.week_to_show,
            tasks: tasks_model(self.tasks@),
        }
    }
}

/// The models of a sequence of projects.
pub open spec fn projects_model(v: Seq<ProjectData>) -> Seq<ProjectModel> {
    v.map_values(|p: ProjectData| p@)
}

/// Every project that the planner knows, and the one that was active when
/// they were last saved.
pub struct AllProjectsData {
    pub projects: Vec<ProjectData>,
    pub active_project_index: usize,
}

/// The model of an `AllProjectsData`.
pub struct AllProjectsModel {
    pub projects: Seq<ProjectModel>,
    pub active_project_index: usize,
}

impl View for AllProjectsData {
    type V = AllProjectsModel;

    open spec fn view(&self) -> AllProjectsModel {
        AllProjectsModel {
            projects: projects_model(self.projects@),
            active_project_index: self.active_project_index,
        }
    }
}

/// Every date a task holds is one chrono can represent.
pub open spec fn task_dates_valid(t: TaskModel) -> bool {
    &&& (t.manual_start_date matches Some(d) ==> day_in_range(d as int))
    &&& (t.start_date matches Some(d) ==> day_in_range(d as int))
    &&& (t.end_date matches Some(d) ==> day_in_range(d as int))
}

impl ProjectModel {
    /// Every date in the project is one chrono can represent.
    pub open spec fn dates_valid(self) -> bool {
        &&& day_in_range(self.start as int)
        &&& forall|i: int| 0 <= i < self.tasks.len() ==> task_dates_valid(#[trigger] self.tasks[i])
    }
}

fn copy_text(v: &Vec<char>) -> (r: Vec<char>)
    ensures
        r@ == v@,
{
    let r = v.clone();
    assert(r@ =~= v@);
    r
}

fn copy_ids(v: &Vec<u32>) -> (r: Vec<u32>)
    ensures
        r@ == v@,
{
    let r = v.clone();
    assert(r@ =~= v@);
    r
}

impl Task {
    /// A task of the given name, assignee, duration, progress and
    /// dependencies, with id 0, no manual start, no details and no schedule.
    pub fn new(name: Vec<char>, assigned_to: Vec<char>, duration: i64, progress: u8, dependencies: Vec<u32>) -> (r: Task)
        ensures
            r@ == (TaskModel {
                id: 0,
                name: name@,
                assigned_to: assigned_to@,
                duration,
                progress,
                dependencies: dependencies@,
                manual_start_date: None,
                details: None,
                start_date: None,
                end_date: None,
            }),
    {
        Task {
            id: 0,
            name,
            assigned_to,
            duration,
            progress,
            dependencies,
            manual_start_date: None,
            details: None,
            start_date: None,
            end_date: None,
        }
    }

    /// A copy of the task.
    pub fn duplicate(&self) -> (r: Task)
        ensures
            r@ == self@,
    {
        let details = match &self.details {
            Some(d) => Some(copy_text(d)),
            None => None,
        };
        Task {
            id: self.id,
            name: copy_text(&self.name),
            assigned_to: copy_text(&self.assigned_to),
            duration: self.duration,
            progress: self.progress,
            dependencies: copy_ids(&self.dependencies),
            manual_start_date: self.manual_start_date,
            details,
            start_date: self.start_date,
            end_date: self.end_date,
        }
    }
}

/// A copy of a list of tasks.
pub fn duplicate_tasks(v: &Vec<Task>) -> (r: Vec<Task>)
    ensures
        tasks_model(r@) == tasks_model(v@),
{
    let mut r: Vec<Task> = Vec::new();
    for i in 0..v.len()
        invariant
            r@.len() == i,
            forall|j: int| 0 <= j < i ==> (#[trigger] r@[j])@ == v@[j]@,
    {
        r.push(v[i].duplicate());
    }
    assert(tasks_model(r@) =~= tasks_model(v@));
    r
}

impl ProjectData {
    /// A copy of the project.
    pub fn duplicate(&self) -> (r: ProjectData)
        ensures
            r@ == self@,
    {
        ProjectData {
            project_name: copy_text(&self.project_name),
            project_start_date: self.project_start_date,
            week_to_show: self.week_to_show,
            tasks: duplicate_tasks(&self.tasks),
        }
    }
}

/// A copy of a list of projects.
pub fn duplicate_projects(v: &Vec<ProjectData>) -> (r: Vec<ProjectData>)
    ensures
        projects_model(r@) == projects_model(v@),
{
    let mut r: Vec<ProjectData> = Vec::new();
    for i in 0..v.len()
        invariant
            r@.len() == i,
            forall|j: int| 0 <= j < i ==> (#[trigger] r@[j])@ == v@[j]@,
    {
        r.push(v[i].duplicate());
    }
    assert(projects_model(r@) =~= projects_model(v@));
    r
}

impl AllProjectsData {
    /// A copy of every project, as it would be saved.
    pub fn duplicate(&self) -> (r: AllProjectsData)
        ensures
            r@ == self@,
    {
        AllProjectsData {
            projects: duplicate_projects(&self.projects),
            active_project_index: self.active_project_index,
        }
    }
}

} // verus!
