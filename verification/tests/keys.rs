use chrono::{Datelike, NaiveDate};
use gantt_planner::app::{App, FocusArea, HighlightMode, InputMode, ProjectField, TaskField};
use gantt_planner::keys::{handle_key, handle_key_at, key_is_safe, Key, KeyPress, Mods, SaveRequest};
use gantt_planner::model::{AllProjectsData, ProjectData, Task};

const NOW: i32 = 739_200;

fn text(s: &str) -> Vec<char> {
    s.chars().collect()
}

fn string(v: &[char]) -> String {
    v.iter().collect()
}

fn day(y: i32, m: u32, d: u32) -> i32 {
    NaiveDate::from_ymd_opt(y, m, d).unwrap().num_days_from_ce()
}

fn task(name: &str, id: u32, duration: i64, deps: &[u32]) -> Task {
    let mut t = Task::new(text(name), text("me"), duration, 0, deps.to_vec());
    t.id = id;
    t
}

fn project(name: &str, start: i32, tasks: Vec<Task>) -> ProjectData {
    ProjectData { project_name: text(name), project_start_date: start, week_to_show: 0, tasks }
}

/// Two projects; the first has three chained tasks and starts on day 100;
/// the planner was started on day 115.
fn planner() -> App {
    let data = AllProjectsData {
        projects: vec![
            project("P", 100, vec![task("A", 1, 2, &[]), task("B", 2, 3, &[1]), task("C", 3, 1, &[2])]),
            project("Q", 300, vec![]),
        ],
        active_project_index: 0,
    };
    App::start(Some(data), 115)
}

fn press_with(app: &mut App, key: Key, mods: Mods) -> Option<SaveRequest> {
    let k = KeyPress { key, mods };
    assert!(key_is_safe(app, k, NOW));
    handle_key_at(app, k, NOW)
}

fn press(app: &mut App, key: Key) -> Option<SaveRequest> {
    press_with(app, key, Mods::Plain)
}

fn type_text(app: &mut App, s: &str) {
    for c in s.chars() {
        press(app, Key::Char(c));
    }
}

fn clear_buffer(app: &mut App) {
    while !app.input_buffer.is_empty() {
        press(app, Key::Backspace);
    }
}

/// Selects row `row` and column `field`, opens it, replaces the text and
/// commits it.
fn edit(app: &mut App, row: usize, field: TaskField, value: &str) {
    app.focus_area = FocusArea::Tasks;
    app.selected = Some(row);
    app.selected_task_field = field;
    press(app, Key::Enter);
    assert_eq!(app.input_mode, InputMode::Editing);
    clear_buffer(app);
    type_text(app, value);
    press(app, Key::Enter);
    assert_eq!(app.input_mode, InputMode::Normal);
}

fn cur(app: &App) -> &ProjectData {
    app.get_current_project()
}

#[test]
fn enter_opens_the_name_and_a_second_enter_renames() {
    let mut app = planner();
    press(&mut app, Key::Enter);
    assert_eq!(app.input_mode, InputMode::Editing);
    assert_eq!(string(&app.input_buffer), "A");
    press(&mut app, Key::Backspace);
    type_text(&mut app, "Zed");
    press_with(&mut app, Key::Char('!'), Mods::Shift);
    assert_eq!(string(&app.input_buffer), "Zed!");
    press(&mut app, Key::Enter);
    assert_eq!(app.input_mode, InputMode::Normal);
    assert!(app.input_buffer.is_empty());
    assert_eq!(string(&cur(&app).tasks[0].name), "Zed!");
    assert_eq!(app.history.len(), 1);
}

#[test]
fn escape_discards_the_edit() {
    let mut app = planner();
    press(&mut app, Key::Enter);
    type_text(&mut app, "xyz");
    press(&mut app, Key::Esc);
    assert_eq!(app.input_mode, InputMode::Normal);
    assert!(app.input_buffer.is_empty());
    assert_eq!(string(&cur(&app).tasks[0].name), "A");
    assert!(app.history.is_empty());
}

#[test]
fn control_w_removes_the_last_word() {
    let mut app = planner();
    press(&mut app, Key::Enter);
    type_text(&mut app, " big dog");
    assert_eq!(string(&app.input_buffer), "A big dog");
    press_with(&mut app, Key::Char('w'), Mods::Control);
    assert_eq!(string(&app.input_buffer), "A big ");
    press_with(&mut app, Key::Char('w'), Mods::Control);
    assert_eq!(string(&app.input_buffer), "A ");
    press_with(&mut app, Key::Char('w'), Mods::Control);
    assert_eq!(string(&app.input_buffer), "");
    // Control with another letter types nothing.
    press_with(&mut app, Key::Char('x'), Mods::Control);
    assert_eq!(string(&app.input_buffer), "");
}

#[test]
fn durations_take_week_month_and_year_suffixes() {
    let mut app = planner();
    edit(&mut app, 0, TaskField::Duration, "2w");
    assert_eq!(cur(&app).tasks[0].duration, 14);
    assert_eq!(cur(&app).tasks[0].end_date, Some(113));
    assert_eq!(cur(&app).tasks[1].start_date, Some(114));
    edit(&mut app, 0, TaskField::Duration, "3m");
    assert_eq!(cur(&app).tasks[0].duration, 90);
    edit(&mut app, 0, TaskField::Duration, "1y");
    assert_eq!(cur(&app).tasks[0].duration, 365);
    edit(&mut app, 0, TaskField::Duration, "abc");
    assert_eq!(cur(&app).tasks[0].duration, 365);
    edit(&mut app, 0, TaskField::Duration, " 5 ");
    assert_eq!(cur(&app).tasks[0].duration, 5);
    edit(&mut app, 0, TaskField::Duration, "xw");
    assert_eq!(cur(&app).tasks[0].duration, 5);
    edit(&mut app, 0, TaskField::Duration, "-3");
    assert_eq!(cur(&app).tasks[0].duration, -3);
    // A duration below one still takes one day.
    assert_eq!(cur(&app).tasks[0].end_date, Some(100));
}

#[test]
fn duration_loads_as_its_number() {
    let mut app = planner();
    app.selected = Some(1);
    app.selected_task_field = TaskField::Duration;
    press(&mut app, Key::Enter);
    assert_eq!(string(&app.input_buffer), "3");
}

#[test]
fn progress_is_capped_at_one_hundred() {
    let mut app = planner();
    edit(&mut app, 0, TaskField::Progress, "40");
    assert_eq!(cur(&app).tasks[0].progress, 40);
    edit(&mut app, 0, TaskField::Progress, "150");
    assert_eq!(cur(&app).tasks[0].progress, 100);
    edit(&mut app, 0, TaskField::Progress, "300");
    assert_eq!(cur(&app).tasks[0].progress, 100);
    edit(&mut app, 0, TaskField::Progress, "7");
    edit(&mut app, 0, TaskField::Progress, "x");
    assert_eq!(cur(&app).tasks[0].progress, 7);
}

#[test]
fn dependency_list_keeps_the_numbers_it_can_read() {
    let mut app = planner();
    app.selected = Some(2);
    app.selected_task_field = TaskField::Dependencies;
    press(&mut app, Key::Enter);
    assert_eq!(string(&app.input_buffer), "2");
    press(&mut app, Key::Esc);
    edit(&mut app, 2, TaskField::Dependencies, "1, 2,x");
    assert_eq!(cur(&app).tasks[2].dependencies, vec![1, 2]);
    // C now waits for the later of A and B: B ends on day 104.
    assert_eq!(cur(&app).tasks[2].start_date, Some(105));
    app.selected_task_field = TaskField::Dependencies;
    press(&mut app, Key::Enter);
    assert_eq!(string(&app.input_buffer), "1, 2");
}

#[test]
fn start_date_of_a_dependent_task_is_locked() {
    let mut app = planner();
    app.selected = Some(1);
    app.selected_task_field = TaskField::StartDate;
    press(&mut app, Key::Enter);
    assert_eq!(app.input_mode, InputMode::Normal);
    assert_eq!(string(&app.status_message), "Cannot edit Start Date when Dependencies are set.");
}

#[test]
fn manual_start_date_is_read_as_month_day_year() {
    let mut app = planner();
    let d = day(2025, 1, 15);
    edit(&mut app, 0, TaskField::StartDate, "01/15/2025");
    assert_eq!(cur(&app).tasks[0].manual_start_date, Some(d));
    assert_eq!(cur(&app).tasks[0].start_date, Some(d));
    assert_eq!(string(&app.status_message), "Dependencies cleared for task with manual start date.");
    // It reads back in the same form.
    app.selected_task_field = TaskField::StartDate;
    press(&mut app, Key::Enter);
    assert_eq!(string(&app.input_buffer), "01/15/2025");
    press(&mut app, Key::Esc);
    // A date that does not exist is refused.
    edit(&mut app, 0, TaskField::StartDate, "02/30/2025");
    assert_eq!(cur(&app).tasks[0].manual_start_date, Some(d));
    assert_eq!(string(&app.status_message), "Invalid date format. Please use mm/dd/yyyy or 'today'.");
    // "today" in any case means the current date.
    edit(&mut app, 0, TaskField::StartDate, "ToDay");
    assert_eq!(cur(&app).tasks[0].manual_start_date, Some(NOW));
    // An empty field clears the manual date.
    edit(&mut app, 0, TaskField::StartDate, "");
    assert_eq!(cur(&app).tasks[0].manual_start_date, None);
    assert_eq!(cur(&app).tasks[0].start_date, Some(100));
}

#[test]
fn project_fields_are_edited_from_the_header() {
    let mut app = planner();
    app.selected = None;
    app.focus_area = FocusArea::Project(ProjectField::Name);
    press(&mut app, Key::Enter);
    assert_eq!(string(&app.input_buffer), "P");
    clear_buffer(&mut app);
    type_text(&mut app, "Launch");
    press(&mut app, Key::Enter);
    assert_eq!(string(&cur(&app).project_name), "Launch");

    press(&mut app, Key::Char('j'));
    assert_eq!(app.focus_area, FocusArea::Project(ProjectField::StartDate));
    press(&mut app, Key::Enter);
    let shown = NaiveDate::from_num_days_from_ce_opt(100).unwrap().format("%m/%d/%Y").to_string();
    assert_eq!(string(&app.input_buffer), shown);
    clear_buffer(&mut app);
    type_text(&mut app, "today");
    press(&mut app, Key::Enter);
    assert_eq!(cur(&app).project_start_date, NOW);
    assert_eq!(cur(&app).tasks[0].start_date, Some(NOW));

    press(&mut app, Key::Down);
    assert_eq!(app.focus_area, FocusArea::Project(ProjectField::WeekToShow));
    press(&mut app, Key::Enter);
    assert_eq!(string(&app.input_buffer), "0");
    clear_buffer(&mut app);
    type_text(&mut app, "3");
    press(&mut app, Key::Enter);
    assert_eq!(cur(&app).week_to_show, 3);
    press(&mut app, Key::Enter);
    clear_buffer(&mut app);
    type_text(&mut app, "three");
    press(&mut app, Key::Enter);
    assert_eq!(cur(&app).week_to_show, 3);
    assert_eq!(string(&app.status_message), "Invalid number for week.");
}

#[test]
fn add_command_opens_the_new_task_name() {
    let mut app = planner();
    press(&mut app, Key::Char('a'));
    assert_eq!(app.selected, Some(1));
    assert_eq!(app.input_mode, InputMode::Editing);
    assert_eq!(app.selected_task_field, TaskField::Name);
    assert_eq!(string(&app.input_buffer), "New Task");
    let t = &cur(&app).tasks[1];
    assert_eq!((t.id, string(&t.assigned_to), t.duration, t.progress), (2, "Unassigned".to_string(), 1, 0));
    assert_eq!(cur(&app).tasks.len(), 4);
}

#[test]
fn delete_undo_and_redo_by_key() {
    let mut app = planner();
    press(&mut app, Key::Char('D'));
    assert_eq!(cur(&app).tasks.len(), 2);
    press(&mut app, Key::Char('u'));
    assert_eq!(cur(&app).tasks.len(), 3);
    assert_eq!(string(&app.status_message), "Undo successful.");
    press_with(&mut app, Key::Char('r'), Mods::Control);
    assert_eq!(cur(&app).tasks.len(), 2);
    assert_eq!(string(&app.status_message), "Redo successful.");
    press_with(&mut app, Key::Char('r'), Mods::Control);
    assert_eq!(string(&app.status_message), "Nothing to redo.");
}

#[test]
fn moving_rows_by_key() {
    let mut app = planner();
    press(&mut app, Key::Char('J'));
    assert_eq!(app.selected, Some(1));
    assert_eq!(string(&cur(&app).tasks[1].name), "A");
    press(&mut app, Key::Char('K'));
    assert_eq!(app.selected, Some(0));
    assert_eq!(string(&cur(&app).tasks[0].name), "A");
    press(&mut app, Key::Char('G'));
    assert_eq!(app.selected, Some(2));
    press(&mut app, Key::Char('g'));
    assert_eq!(app.selected, Some(0));
    press(&mut app, Key::Char('k'));
    assert_eq!(app.selected, None);
    assert_eq!(app.focus_area, FocusArea::Project(ProjectField::WeekToShow));
}

#[test]
fn field_keys_move_between_columns() {
    let mut app = planner();
    press(&mut app, Key::Char('l'));
    assert_eq!(app.selected_task_field, TaskField::AssignedTo);
    press(&mut app, Key::Right);
    assert_eq!(app.selected_task_field, TaskField::StartDate);
    press(&mut app, Key::Left);
    press(&mut app, Key::Char('h'));
    assert_eq!(app.selected_task_field, TaskField::Name);
    press(&mut app, Key::Char('h'));
    assert_eq!(app.selected_task_field, TaskField::Dependencies);
}

#[test]
fn today_key_shows_the_week_of_the_start_day() {
    let mut app = planner();
    press(&mut app, Key::Char('t'));
    assert_eq!(cur(&app).week_to_show, 2);
    assert_eq!(string(&app.status_message), "Jumped to the week of today's date.");
}

#[test]
fn details_are_opened_typed_and_stored() {
    let mut app = planner();
    press(&mut app, Key::Char('M'));
    assert!(app.details_view_open);
    assert_eq!(app.input_mode, InputMode::Editing);
    type_text(&mut app, "hi there");
    press_with(&mut app, Key::Char('w'), Mods::Control);
    assert_eq!(string(&app.details_buffer), "hi ");
    press(&mut app, Key::Backspace);
    press(&mut app, Key::Enter);
    assert!(!app.details_view_open);
    assert_eq!(app.input_mode, InputMode::Normal);
    assert_eq!(cur(&app).tasks[0].details, Some(text("hi")));
    press(&mut app, Key::Char('M'));
    assert_eq!(string(&app.details_buffer), "hi");
    press(&mut app, Key::Backspace);
    press(&mut app, Key::Backspace);
    press(&mut app, Key::Enter);
    assert_eq!(cur(&app).tasks[0].details, None);
    // Escape closes without storing.
    press(&mut app, Key::Char('M'));
    type_text(&mut app, "lost");
    press(&mut app, Key::Esc);
    assert_eq!(cur(&app).tasks[0].details, None);
}

#[test]
fn highlight_mode_and_quit() {
    let mut app = planner();
    assert_eq!(app.highlight_mode, HighlightMode::Today);
    press(&mut app, Key::Char('O'));
    assert_eq!(app.highlight_mode, HighlightMode::Urgent);
    press(&mut app, Key::Char('O'));
    assert_eq!(app.highlight_mode, HighlightMode::Today);
    assert!(!app.should_quit);
    press(&mut app, Key::Char('q'));
    assert!(app.should_quit);
}

#[test]
fn saving_keys_hand_back_the_projects() {
    let mut app = planner();
    match press_with(&mut app, Key::Char('s'), Mods::Control) {
        Some(SaveRequest::Report(d)) => {
            assert_eq!(d.projects.len(), 2);
            assert_eq!(d.active_project_index, 0);
        }
        _ => panic!("control-s asks for a reported save"),
    }
    match press(&mut app, Key::Char('N')) {
        Some(SaveRequest::Quiet(d)) => assert_eq!(d.active_project_index, 0),
        _ => panic!("switching asks for a quiet save"),
    }
    assert_eq!(app.current_project_index, 1);
    assert_eq!(string(&app.status_message), "Switched to project: Q");
    match press(&mut app, Key::Char('P')) {
        Some(SaveRequest::Quiet(d)) => assert_eq!(d.active_project_index, 1),
        _ => panic!("switching asks for a quiet save"),
    }
    assert_eq!(app.current_project_index, 0);
    match press(&mut app, Key::Char('C')) {
        Some(SaveRequest::Quiet(_)) => {}
        _ => panic!("a new project asks for a quiet save"),
    }
    assert_eq!(app.all_projects.projects.len(), 3);
    assert_eq!(app.current_project_index, 2);
    assert_eq!(string(&cur(&app).project_name), "New Project 3");
    assert_eq!(cur(&app).project_start_date, NOW);
    assert_eq!(string(&app.status_message), "New project 'New Project 3' created.");
    assert!(press(&mut app, Key::Char('x')).is_none());
}

#[test]
fn keys_that_would_crash_are_refused() {
    // 'J' and 'j' on an empty task table with a row still selected.
    let data = AllProjectsData { projects: vec![project("E", 100, vec![])], active_project_index: 0 };
    let mut app = App::start(Some(data), 100);
    app.focus_area = FocusArea::Tasks;
    app.selected = Some(0);
    for k in [Key::Char('J'), Key::Char('j'), Key::Down] {
        assert!(!key_is_safe(&app, KeyPress { key: k, mods: Mods::Plain }, NOW));
    }
    assert!(key_is_safe(&app, KeyPress { key: Key::Char('k'), mods: Mods::Plain }, NOW));
    let before_focus = app.focus_area;
    assert!(handle_key(&mut app, KeyPress { key: Key::Char('J'), mods: Mods::Plain }).is_none());
    assert_eq!(app.focus_area, before_focus);
    assert_eq!(app.selected, Some(0));

    // A selection past the end of the table.
    let mut app = planner();
    app.selected = Some(5);
    for k in [Key::Char('M'), Key::Enter, Key::Char('a')] {
        assert!(!key_is_safe(&app, KeyPress { key: k, mods: Mods::Plain }, NOW));
    }

    // A duration whose end date is past the calendar's end.
    let mut app = planner();
    app.selected_task_field = TaskField::Duration;
    press(&mut app, Key::Enter);
    clear_buffer(&mut app);
    type_text(&mut app, "99999999999");
    assert!(!key_is_safe(&app, KeyPress { key: Key::Enter, mods: Mods::Plain }, NOW));
    clear_buffer(&mut app);
    type_text(&mut app, "100");
    assert!(key_is_safe(&app, KeyPress { key: Key::Enter, mods: Mods::Plain }, NOW));
}

#[test]
fn handle_key_uses_the_clock_for_safe_keys() {
    let mut app = planner();
    let out = handle_key(&mut app, KeyPress { key: Key::Char('q'), mods: Mods::Plain });
    assert!(matches!(out, Some(None)));
    assert!(app.should_quit);
}
