use chrono::{Datelike, NaiveDate, Weekday};
use gantt_planner::app::{App, FocusArea, HighlightMode, InputMode, ProjectField, TaskField};
use gantt_planner::display::{bar_cell, calculate_column_widths, chart_header, chart_window, details_cursor, header_lines, project_cursor, row_cell_texts, table_title_text, task_cursor, row_look, task_is_overdue, task_runs_on, try_column_widths, BarCell, RowLook};
use gantt_planner::model::{duplicate_tasks, AllProjectsData, ProjectData, Task};

fn text(s: &str) -> Vec<char> {
    s.chars().collect()
}

fn task(id: u32, name: &str, assigned: &str, deps: &[u32]) -> Task {
    let mut t = Task::new(text(name), text(assigned), 1, 0, deps.to_vec());
    t.id = id;
    t
}

fn project(tasks: Vec<Task>) -> ProjectData {
    ProjectData { project_name: text("P"), project_start_date: 0, week_to_show: 0, tasks }
}

#[test]
fn narrow_tasks_take_the_header_widths() {
    let p = project(vec![task(1, "A", "me", &[]), task(2, "B", "me", &[1]), task(3, "C", "me", &[2])]);
    assert_eq!(calculate_column_widths(&p), [4, 18, 10, 12, 6, 7, 6]);
}

#[test]
fn empty_project_takes_the_header_widths() {
    let p = project(vec![]);
    assert_eq!(calculate_column_widths(&p), [4, 18, 10, 12, 6, 7, 6]);
}

#[test]
fn wide_content_widens_its_column() {
    let p = project(vec![
        task(1234, "Requirement Gathering", "Alice Liddell", &[1, 22, 333]),
        task(2, "日本語", "x", &[]),
    ]);
    // Id "1234" takes 4 columns; the name 21; the assignee 13; the
    // dependencies 1 + 2 + 3 digits with two separators of two.
    assert_eq!(calculate_column_widths(&p), [6, 35, 15, 12, 6, 7, 12]);
    assert_eq!(try_column_widths(&p), Some([6, 35, 15, 12, 6, 7, 12]));
    // Double-width characters count twice.
    let q = project(vec![task(1, "日本語日本語日本語", "x", &[])]);
    assert_eq!(calculate_column_widths(&q)[1], 18 + 12 + 2);
}

#[test]
fn a_very_wide_name_wraps_as_a_u16_does() {
    let long: String = std::iter::repeat('x').take(70_000).collect();
    let p = project(vec![task(1, &long, "x", &[])]);
    assert_eq!(try_column_widths(&p).map(|w| w[1]), Some(4478));
}

#[test]
fn a_width_past_u16_is_refused() {
    let long: String = std::iter::repeat('x').take(65_530).collect();
    let p = project(vec![task(1, &long, "x", &[])]);
    assert_eq!(try_column_widths(&p), None);
}

#[test]
fn running_and_overdue_tasks() {
    let mut t = task(1, "A", "me", &[]);
    assert!(!task_runs_on(&t, 5));
    assert!(!task_is_overdue(&t, 5));
    t.start_date = Some(10);
    t.end_date = Some(12);
    assert!(!task_runs_on(&t, 9));
    assert!(task_runs_on(&t, 10));
    assert!(task_runs_on(&t, 12));
    assert!(!task_runs_on(&t, 13));
    assert!(!task_is_overdue(&t, 12));
    assert!(task_is_overdue(&t, 13));
    t.progress = 100;
    assert!(!task_is_overdue(&t, 13));
}

#[test]
fn overdue_rows_win_over_the_highlight_mode() {
    assert_eq!(row_look(true, HighlightMode::Today, true, true), RowLook::Overdue);
    assert_eq!(row_look(true, HighlightMode::Urgent, false, true), RowLook::Overdue);
    assert_eq!(row_look(false, HighlightMode::Today, true, true), RowLook::RunsToday);
    assert_eq!(row_look(false, HighlightMode::Today, false, true), RowLook::Plain);
    assert_eq!(row_look(false, HighlightMode::Urgent, true, true), RowLook::Urgent);
    assert_eq!(row_look(false, HighlightMode::Urgent, true, false), RowLook::Plain);
}

#[test]
fn bar_cells_split_done_from_to_do() {
    // A task from day 10 to day 14, done up to day 11.
    let cells: Vec<BarCell> = (8..=16).map(|d| bar_cell(d, 10, 14, 11)).collect();
    assert_eq!(cells, vec![BarCell::Blank, BarCell::Blank, BarCell::Done, BarCell::Done, BarCell::ToDo, BarCell::ToDo, BarCell::ToDo, BarCell::Blank, BarCell::Blank]);
    // Nothing done yet.
    assert_eq!(bar_cell(10, 10, 14, 9), BarCell::ToDo);
}

fn strings(v: &[Vec<char>]) -> Vec<String> {
    v.iter().map(|t| t.iter().collect()).collect()
}

#[test]
fn row_cells_show_the_task_and_mark_the_cursor() {
    let mut t = task(12, "Build", "Bob", &[3, 45]);
    t.duration = -2;
    t.progress = 40;
    t.start_date = Some(739_099);
    let plain = row_cell_texts(&t, None, InputMode::Normal, &text("typed"));
    assert_eq!(strings(&plain), vec![" 12", " Build", " Bob", " 08/01/2024", " -2", " 40", " 3, 45"]);
    let cursor = row_cell_texts(&t, Some(TaskField::Duration), InputMode::Normal, &text("typed"));
    assert_eq!(strings(&cursor)[4], "> -2");
    assert_eq!(strings(&cursor)[1], " Build");
    let editing = row_cell_texts(&t, Some(TaskField::Name), InputMode::Editing, &text("typed"));
    assert_eq!(strings(&editing)[1], "> typed");
    t.details = Some(text("notes"));
    t.start_date = None;
    let marked = row_cell_texts(&t, None, InputMode::Editing, &text(""));
    assert_eq!(strings(&marked)[0], " 12*");
    assert_eq!(strings(&marked)[3], " -");
}

#[test]
fn adding_a_task_never_narrows_a_column() {
    let mut tasks = vec![task(1, "Short", "Al", &[2]), task(2, "A much longer name", "Beatrice", &[1, 22, 333])];
    let before = calculate_column_widths(&project(duplicate_tasks(&tasks)));
    for (i, extra) in [task(3, "x", "y", &[]), task(4444, "Widest name of them all", "Someone Else", &[1, 2, 3, 4])].into_iter().enumerate() {
        tasks.insert(i, extra);
        let after = calculate_column_widths(&project(duplicate_tasks(&tasks)));
        for k in 0..7 {
            assert!(before[k] <= after[k]);
        }
    }
}

fn day(y: i32, m: u32, d: u32) -> i32 {
    NaiveDate::from_ymd_opt(y, m, d).unwrap().num_days_from_ce()
}

fn two_projects() -> App {
    let p = ProjectData { project_name: text("Launch"), project_start_date: day(2024, 8, 1), week_to_show: 3, tasks: vec![task(1, "A", "me", &[])] };
    let q = ProjectData { project_name: text("Q"), project_start_date: 0, week_to_show: 0, tasks: vec![] };
    App::start(Some(AllProjectsData { projects: vec![p, q], active_project_index: 0 }), 739_200)
}

#[test]
fn header_lines_show_the_project_or_the_buffer() {
    let mut app = two_projects();
    assert_eq!(strings(&header_lines(&app)), vec!["Project: Launch (1/2)", "Start Date: 08/01/2024", "Week to Show: 3"]);
    assert_eq!(table_title_text(&app).iter().collect::<String>(), "Project Details & Tasks - Launch");
    app.focus_area = FocusArea::Project(ProjectField::StartDate);
    app.input_mode = InputMode::Editing;
    app.input_buffer = text("12/3");
    assert_eq!(strings(&header_lines(&app)), vec!["Project: Launch (1/2)", "Start Date: 12/3", "Week to Show: 3"]);
    // Focus alone, without editing, shows the stored value.
    app.input_mode = InputMode::Normal;
    assert_eq!(strings(&header_lines(&app))[1], "Start Date: 08/01/2024");
}

#[test]
fn cursor_positions_follow_the_text() {
    // Details box at (10, 20), 12 wide: text wraps after 10 columns.
    assert_eq!(details_cursor(10, 20, 12, 0), Some((11, 21)));
    assert_eq!(details_cursor(10, 20, 12, 23), Some((14, 23)));
    assert_eq!(details_cursor(10, 20, 2, 3), None);
    assert_eq!(details_cursor(65_535, 0, 12, 0), None);
    // Header fields: border, label, text.
    assert_eq!(project_cursor(ProjectField::Name, 0, 0, 4), Some((14, 1)));
    assert_eq!(project_cursor(ProjectField::StartDate, 5, 7, 0), Some((18, 9)));
    assert_eq!(project_cursor(ProjectField::WeekToShow, 0, 0, 2), Some((17, 3)));
    // Task columns: "> " and the text, then the column's step.
    assert_eq!(task_cursor(TaskField::Name, 30, 5, 2, 3), Some((36, 7)));
    assert_eq!(task_cursor(TaskField::AssignedTo, 30, 5, 0, 3), Some((31, 5)));
    assert_eq!(task_cursor(TaskField::StartDate, 30, 5, 0, 0), Some((29, 5)));
    assert_eq!(task_cursor(TaskField::Duration, 30, 5, 0, 0), Some((30, 5)));
    assert_eq!(task_cursor(TaskField::Progress, 30, 5, 0, 0), Some((31, 5)));
    assert_eq!(task_cursor(TaskField::Dependencies, 30, 5, 0, 0), Some((32, 5)));
    // Stepping left of column 0 is refused.
    assert_eq!(task_cursor(TaskField::AssignedTo, 0, 5, 0, 0), None);
}

#[test]
fn chart_window_starts_at_the_shown_week() {
    let start = day(2024, 8, 1);
    assert_eq!(chart_window(start, 0, 40), Some((start, 10)));
    assert_eq!(chart_window(start, 2, 43), Some((start + 14, 10)));
    assert_eq!(chart_window(start, u32::MAX, 40), None);
}

#[test]
fn chart_header_matches_the_calendar() {
    let first = day(2024, 1, 25);
    let more: u16 = 400;
    let h = chart_header(first, more);
    assert_eq!(h.months.len(), 401);
    let mut last_month = 0;
    for k in 0..=(more as usize) {
        let date = NaiveDate::from_num_days_from_ce_opt(first + k as i32).unwrap();
        let letter = match date.weekday() {
            Weekday::Mon => "M",
            Weekday::Tue => "T",
            Weekday::Wed => "W",
            Weekday::Thu => "T",
            Weekday::Fri => "F",
            Weekday::Sat | Weekday::Sun => "S",
        };
        assert_eq!(h.weekdays[k].iter().collect::<String>(), format!(" {}  ", letter));
        assert_eq!(h.days[k].iter().collect::<String>(), format!(" {:<2} ", date.day()));
        let month = if date.month() != last_month {
            last_month = date.month();
            format!("|{:<3}", date.format("%b"))
        } else {
            "    ".to_string()
        };
        assert_eq!(h.months[k].iter().collect::<String>(), month);
    }
    assert_eq!(h.months[0].iter().collect::<String>(), "|Jan");
    assert_eq!(h.months[7].iter().collect::<String>(), "|Feb");
}

#[test]
fn weekdays_hold_before_the_common_era() {
    let first = day(-3, 12, 30);
    let h = chart_header(first, 9);
    for k in 0..10usize {
        let date = NaiveDate::from_num_days_from_ce_opt(first + k as i32).unwrap();
        let monday = date.weekday() == Weekday::Mon;
        assert_eq!(h.weekdays[k][1] == 'M', monday);
    }
}
