use chrono::{Datelike, Local};
use gantt_planner::app::{App, FocusArea};
use gantt_planner::model::{AllProjectsData, ProjectData, Task};

fn text(s: &str) -> Vec<char> {
    s.chars().collect()
}

fn local_day() -> i32 {
    Local::now().date_naive().num_days_from_ce()
}

fn planner() -> App {
    let mut t = Task::new(text("A"), text("me"), 2, 0, vec![]);
    t.id = 1;
    let data = AllProjectsData {
        projects: vec![ProjectData { project_name: text("P"), project_start_date: 100, week_to_show: 0, tasks: vec![t] }],
        active_project_index: 0,
    };
    App::start(Some(data), 100)
}

#[test]
fn a_new_project_starts_on_the_local_date() {
    let mut app = planner();
    let before = local_day();
    let saved = app.add_new_project();
    let after = local_day();
    assert_eq!(saved.projects.len(), 1);
    let p = app.get_current_project();
    assert_eq!(p.project_name, text("New Project 2"));
    assert!(before <= p.project_start_date && p.project_start_date <= after);
}

#[test]
fn today_in_a_start_date_is_the_local_date() {
    let mut app = planner();
    app.focus_area = FocusArea::Tasks;
    app.selected = Some(0);
    app.selected_task_field = gantt_planner::app::TaskField::StartDate;
    app.input_buffer = text("today");
    let before = local_day();
    app.save_buffer_to_task();
    let after = local_day();
    let d = app.get_current_project().tasks[0].manual_start_date.unwrap();
    assert!(before <= d && d <= after);
}

#[test]
fn the_planner_starts_on_the_local_date() {
    let before = local_day();
    let app = App::new(None).unwrap();
    let after = local_day();
    assert!(before <= app.today && app.today <= after);
}
