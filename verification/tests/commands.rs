use gantt_planner::app::{App, FocusArea, ProjectField};
use gantt_planner::model::{AllProjectsData, ProjectData, Task};

fn text(s: &str) -> Vec<char> {
    s.chars().collect()
}

fn task(name: &str, duration: i64, deps: &[u32]) -> Task {
    Task::new(text(name), text("me"), duration, 0, deps.to_vec())
}

fn project(name: &str, start: i32, tasks: Vec<Task>) -> ProjectData {
    ProjectData { project_name: text(name), project_start_date: start, week_to_show: 0, tasks }
}

/// A planner with one project of three chained tasks, renumbered and
/// scheduled, with the first row selected.
fn planner() -> App {
    let mut a = task("A", 2, &[]);
    a.id = 1;
    let mut b = task("B", 3, &[1]);
    b.id = 2;
    let mut c = task("C", 1, &[2]);
    c.id = 3;
    let data = AllProjectsData {
        projects: vec![project("P", 100, vec![a, b, c]), project("Q", 300, vec![])],
        active_project_index: 0,
    };
    App::start(Some(data), 100)
}

fn names(app: &App) -> Vec<String> {
    app.get_current_project().tasks.iter().map(|t| t.name.iter().collect()).collect()
}

fn ids_and_deps(app: &App) -> Vec<(u32, Vec<u32>)> {
    app.get_current_project().tasks.iter().map(|t| (t.id, t.dependencies.clone())).collect()
}

#[test]
fn loaded_projects_are_scheduled_and_first_row_selected() {
    let app = planner();
    assert_eq!(app.status_message, text("Projects loaded successfully from projects.json."));
    assert_eq!(app.selected, Some(0));
    assert_eq!(app.focus_area, FocusArea::Tasks);
    let t = &app.get_current_project().tasks;
    assert_eq!((t[0].start_date, t[0].end_date), (Some(100), Some(101)));
    assert_eq!((t[1].start_date, t[1].end_date), (Some(102), Some(104)));
    assert_eq!((t[2].start_date, t[2].end_date), (Some(105), Some(105)));
    assert_eq!(app.next_task_id, 4);
}

#[test]
fn empty_active_project_focuses_the_name() {
    let data = AllProjectsData { projects: vec![project("Q", 300, vec![])], active_project_index: 0 };
    let app = App::start(Some(data), 100);
    assert_eq!(app.selected, None);
    assert_eq!(app.focus_area, FocusArea::Project(ProjectField::Name));
}

#[test]
fn unusable_loaded_projects_are_refused() {
    let none = AllProjectsData { projects: vec![], active_project_index: 0 };
    assert!(App::new(Some(none)).is_none());
    let out_of_range = AllProjectsData { projects: vec![project("P", 0, vec![])], active_project_index: 1 };
    assert!(App::new(Some(out_of_range)).is_none());
    let ok = AllProjectsData { projects: vec![project("P", 0, vec![])], active_project_index: 0 };
    assert!(App::new(Some(ok)).is_some());
    assert!(App::new(None).is_some());
}

#[test]
fn add_task_inserts_below_selection_and_renumbers() {
    let mut app = planner();
    app.selected = Some(0);
    let idx = app.add_task(task("New", 1, &[]));
    assert_eq!(idx, 1);
    assert_eq!(names(&app), vec!["A", "New", "B", "C"]);
    // B depended on A (1) and C on B (2): they follow their tasks.
    assert_eq!(ids_and_deps(&app), vec![(1, vec![]), (2, vec![]), (3, vec![1]), (4, vec![3])]);
    assert_eq!(app.history.len(), 1);
    assert_eq!(app.next_task_id, 5);
}

#[test]
fn add_task_without_selection_appends() {
    let mut app = planner();
    app.selected = None;
    let idx = app.add_task(task("Z", 1, &[]));
    assert_eq!(idx, 3);
    assert_eq!(names(&app), vec!["A", "B", "C", "Z"]);
}

#[test]
fn delete_drops_dependencies_on_the_deleted_task() {
    let mut app = planner();
    app.selected = Some(1);
    app.delete_selected_task();
    assert_eq!(names(&app), vec!["A", "C"]);
    assert_eq!(ids_and_deps(&app), vec![(1, vec![]), (2, vec![])]);
    assert_eq!(app.selected, Some(1));
    let t = &app.get_current_project().tasks;
    assert_eq!(t[1].start_date, Some(100));
}

#[test]
fn delete_last_row_selects_the_new_last_row() {
    let mut app = planner();
    app.selected = Some(2);
    app.delete_selected_task();
    assert_eq!(app.selected, Some(1));
}

#[test]
fn delete_only_task_moves_focus_to_week_field() {
    let mut app = planner();
    for _ in 0..3 {
        app.selected = Some(0);
        app.delete_selected_task();
    }
    assert!(app.get_current_project().tasks.is_empty());
    assert_eq!(app.selected, None);
    assert_eq!(app.focus_area, FocusArea::Project(ProjectField::WeekToShow));
}

#[test]
fn delete_with_stale_selection_clears_it() {
    let mut app = planner();
    app.selected = Some(7);
    app.delete_selected_task();
    assert_eq!(names(&app), vec!["A", "B", "C"]);
    assert_eq!(app.selected, None);
    assert_eq!(app.history.len(), 1);
}

#[test]
fn move_up_and_down_swap_rows_and_follow_them() {
    let mut app = planner();
    app.selected = Some(2);
    app.move_task_up();
    assert_eq!(names(&app), vec!["A", "C", "B"]);
    assert_eq!(app.selected, Some(1));
    // C depended on B: after the swap and renumbering, C (now 2) depends on B (now 3).
    assert_eq!(ids_and_deps(&app), vec![(1, vec![]), (2, vec![3]), (3, vec![1])]);
    app.move_task_down();
    assert_eq!(names(&app), vec!["A", "B", "C"]);
    assert_eq!(ids_and_deps(&app), vec![(1, vec![]), (2, vec![1]), (3, vec![2])]);
    assert_eq!(app.selected, Some(2));
    // the first row cannot go up, the last cannot go down
    app.move_task_down();
    assert_eq!(names(&app), vec!["A", "B", "C"]);
    app.selected = Some(0);
    app.move_task_up();
    assert_eq!(names(&app), vec!["A", "B", "C"]);
}

#[test]
fn undo_and_redo_walk_the_history() {
    let mut app = planner();
    app.selected = Some(1);
    app.delete_selected_task();
    assert_eq!(names(&app), vec!["A", "C"]);
    app.undo();
    assert_eq!(app.status_message, text("Undo successful."));
    assert_eq!(names(&app), vec!["A", "B", "C"]);
    assert_eq!(app.redo_history.len(), 1);
    app.redo();
    assert_eq!(app.status_message, text("Redo successful."));
    assert_eq!(names(&app), vec!["A", "C"]);
    app.redo();
    assert_eq!(app.status_message, text("Nothing to redo."));
    app.undo();
    app.undo();
    assert_eq!(app.status_message, text("Nothing to undo."));
    assert_eq!(names(&app), vec!["A", "B", "C"]);
}

#[test]
fn a_new_command_drops_the_redo_history() {
    let mut app = planner();
    app.selected = Some(0);
    app.delete_selected_task();
    app.undo();
    assert_eq!(app.redo_history.len(), 1);
    app.selected = Some(0);
    app.move_task_down();
    assert!(app.redo_history.is_empty());
}

#[test]
fn switching_projects_saves_first_and_wraps_around() {
    let mut app = planner();
    let saved = app.next_project().unwrap();
    assert_eq!(saved.active_project_index, 0);
    assert_eq!(saved.projects.len(), 2);
    assert_eq!(app.current_project_index, 1);
    assert_eq!(app.all_projects.active_project_index, 0);
    assert_eq!(app.status_message, text("Switched to project: Q"));
    assert_eq!(app.selected, Some(0));
    assert!(app.next_project().is_some());
    assert_eq!(app.current_project_index, 0);
    assert!(app.previous_project().is_some());
    assert_eq!(app.current_project_index, 1);
    assert!(app.previous_project().is_some());
    assert_eq!(app.current_project_index, 0);
}

#[test]
fn switching_with_one_project_only_says_so() {
    let mut app = App::start(None, 739200);
    assert!(app.next_project().is_none());
    assert_eq!(app.status_message, text("No other projects to switch to."));
    assert!(app.previous_project().is_none());
    assert_eq!(app.current_project_index, 0);
}

#[test]
fn new_project_is_appended_and_named_by_count() {
    let mut app = planner();
    app.selected = Some(0);
    app.delete_selected_task();
    let saved = app.add_new_project_on(5000);
    assert_eq!(saved.projects.len(), 2);
    assert_eq!(saved.active_project_index, 0);
    assert_eq!(app.all_projects.projects.len(), 3);
    assert_eq!(app.current_project_index, 2);
    let p = app.get_current_project();
    assert_eq!(p.project_name, text("New Project 3"));
    assert_eq!(p.project_start_date, 5000);
    assert!(p.tasks.is_empty());
    assert!(app.history.is_empty());
    assert_eq!(app.selected, None);
    assert_eq!(app.focus_area, FocusArea::Project(ProjectField::Name));
    assert_eq!(app.status_message, text("New project 'New Project 3' created."));
    assert_eq!(app.next_task_id, 1);
}

#[test]
fn saving_reports_the_outcome() {
    let mut app = planner();
    app.current_project_index = 1;
    let saved = app.save_all_projects();
    assert_eq!(saved.active_project_index, 1);
    app.finish_save(true);
    assert_eq!(app.status_message, text("All projects saved successfully to projects.json!"));
    app.finish_save(false);
    assert_eq!(app.status_message, text("Failed to save projects."));
}

#[test]
fn without_a_file_the_sample_project_is_shown() {
    let app = App::start(None, 739_200);
    assert_eq!(
        app.status_message,
        text("Failed to load projects from projects.json. Starting with a new default project.")
    );
    assert_eq!(app.all_projects.projects.len(), 1);
    assert_eq!(app.current_project_index, 0);
    let p = app.get_current_project();
    assert_eq!(p.project_name, text("New Project"));
    assert_eq!(p.project_start_date, gantt_planner::app::SAMPLE_PROJECT_START);
    assert_eq!(p.tasks.len(), 2);
    assert_eq!(p.tasks[0].name, text("Requirement Gathering"));
    assert_eq!((p.tasks[0].duration, p.tasks[0].progress), (5, 100));
    assert_eq!(p.tasks[1].name, text("UI/UX Design"));
    assert_eq!(p.tasks[1].dependencies, vec![1]);
    // Both sample tasks keep id 0, so both take the placement of the last
    // one: seven days from the project start.
    for t in &p.tasks {
        assert_eq!(t.id, 0);
        assert_eq!((t.start_date, t.end_date), (Some(739_099), Some(739_105)));
    }
    assert_eq!(app.next_task_id, 1);
    assert_eq!(app.selected, Some(0));
    assert_eq!(app.focus_area, FocusArea::Tasks);
    assert_eq!(app.today, 739_200);
}
