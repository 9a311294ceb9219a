use gantt_planner::app::{App, FocusArea, InputMode, ProjectField, TaskField};
use gantt_planner::editing::{join_ids, task_field_text};
use gantt_planner::keys::{handle_key_at, Key, KeyPress, Mods};
use gantt_planner::model::{AllProjectsData, ProjectData, Task};
use gantt_planner::remap::renumber_tasks;
use gantt_planner::schedule::schedule_tasks;
use gantt_planner::text::parse_id_list;

const NOW: i32 = 739_200;

fn text(s: &str) -> Vec<char> {
    s.chars().collect()
}

fn task(name: &str, id: u32, duration: i64, deps: &[u32]) -> Task {
    let mut t = Task::new(text(name), text("me"), duration, 0, deps.to_vec());
    t.id = id;
    t
}

fn planner() -> App {
    let data = AllProjectsData {
        projects: vec![ProjectData {
            project_name: text("P"),
            project_start_date: 100,
            week_to_show: 0,
            tasks: vec![task("A", 1, 2, &[]), task("B", 2, 3, &[1]), task("C", 3, 1, &[2])],
        }],
        active_project_index: 0,
    };
    App::start(Some(data), 100)
}

fn press(app: &mut App, key: Key) {
    handle_key_at(app, KeyPress { key, mods: Mods::Plain }, NOW);
}

fn snapshot(app: &App) -> Vec<(u32, Vec<char>, i64, Vec<u32>, Option<i32>, Option<i32>)> {
    app.get_current_project()
        .tasks
        .iter()
        .map(|t| (t.id, t.name.clone(), t.duration, t.dependencies.clone(), t.start_date, t.end_date))
        .collect()
}

#[test]
fn undo_reverts_an_edit_an_add_a_delete_and_a_move() {
    let mut app = planner();
    let before = snapshot(&app);
    // edit
    press(&mut app, Key::Enter);
    press(&mut app, Key::Char('x'));
    press(&mut app, Key::Enter);
    assert_ne!(snapshot(&app), before);
    app.undo();
    assert_eq!(snapshot(&app), before);
    // add
    app.add_task(task("N", 0, 4, &[]));
    app.undo();
    assert_eq!(snapshot(&app), before);
    // delete
    app.selected = Some(1);
    app.delete_selected_task();
    app.undo();
    assert_eq!(snapshot(&app), before);
    // move up
    app.selected = Some(2);
    app.move_task_up();
    app.undo();
    assert_eq!(snapshot(&app), before);
}

#[test]
fn redo_after_undo_comes_back() {
    let mut app = planner();
    app.selected = Some(0);
    app.delete_selected_task();
    let after = snapshot(&app);
    app.undo();
    app.redo();
    assert_eq!(snapshot(&app), after);
}

#[test]
fn six_steps_right_go_round_and_left_undoes_right() {
    let mut app = planner();
    for _ in 0..6 {
        press(&mut app, Key::Char('l'));
    }
    assert_eq!(app.selected_task_field, TaskField::Name);
    for f in [TaskField::Name, TaskField::AssignedTo, TaskField::StartDate, TaskField::Duration, TaskField::Progress, TaskField::Dependencies] {
        app.selected_task_field = f;
        press(&mut app, Key::Right);
        press(&mut app, Key::Left);
        assert_eq!(app.selected_task_field, f);
    }
}

#[test]
fn down_then_up_comes_back() {
    let mut app = planner();
    press(&mut app, Key::Down);
    press(&mut app, Key::Up);
    assert_eq!(app.selected, Some(0));
    app.selected = None;
    app.focus_area = FocusArea::Project(ProjectField::Name);
    press(&mut app, Key::Down);
    press(&mut app, Key::Up);
    assert_eq!(app.focus_area, FocusArea::Project(ProjectField::Name));
}

#[test]
fn typing_then_backspace_leaves_the_buffer() {
    let mut app = planner();
    press(&mut app, Key::Enter);
    assert_eq!(app.input_mode, InputMode::Editing);
    let before = app.input_buffer.clone();
    press(&mut app, Key::Char('q'));
    press(&mut app, Key::Backspace);
    assert_eq!(app.input_buffer, before);
}

#[test]
fn switching_forth_and_back_returns_to_the_project() {
    let mut app = planner();
    app.add_new_project_on(NOW);
    app.next_project();
    assert_eq!(app.current_project_index, 0);
    app.previous_project();
    assert_eq!(app.current_project_index, 1);
}

#[test]
fn renumbering_twice_is_renumbering_once() {
    let mut tasks = vec![task("A", 7, 1, &[9]), task("B", 9, 1, &[7, 42]), task("C", 3, 1, &[])];
    renumber_tasks(&mut tasks);
    let ids: Vec<(u32, Vec<u32>)> = tasks.iter().map(|t| (t.id, t.dependencies.clone())).collect();
    assert_eq!(ids, vec![(1, vec![2]), (2, vec![1]), (3, vec![])]);
    renumber_tasks(&mut tasks);
    let again: Vec<(u32, Vec<u32>)> = tasks.iter().map(|t| (t.id, t.dependencies.clone())).collect();
    assert_eq!(again, ids);
}

#[test]
fn scheduling_twice_is_scheduling_once_and_respects_dependencies() {
    let mut tasks = vec![task("C", 3, 1, &[2]), task("B", 2, 3, &[1]), task("A", 1, 2, &[]), task("D", 4, 2, &[])];
    schedule_tasks(&mut tasks, 50);
    let once: Vec<(Option<i32>, Option<i32>)> = tasks.iter().map(|t| (t.start_date, t.end_date)).collect();
    assert_eq!(once, vec![(Some(55), Some(55)), (Some(52), Some(54)), (Some(50), Some(51)), (Some(50), Some(51))]);
    schedule_tasks(&mut tasks, 50);
    let twice: Vec<(Option<i32>, Option<i32>)> = tasks.iter().map(|t| (t.start_date, t.end_date)).collect();
    assert_eq!(twice, once);
}

#[test]
fn a_dependency_list_reads_back() {
    for ids in [vec![], vec![5], vec![1, 22, 4_000_000_000]] {
        assert_eq!(parse_id_list(&join_ids(&ids)), ids);
    }
}

#[test]
fn committing_an_unchanged_field_keeps_the_task() {
    let mut app = planner();
    app.selected = Some(1);
    for f in [TaskField::Name, TaskField::AssignedTo, TaskField::Duration, TaskField::Progress, TaskField::Dependencies] {
        let before = snapshot(&app);
        app.selected_task_field = f;
        press(&mut app, Key::Enter);
        assert_eq!(app.input_buffer, task_field_text(&app.get_current_project().tasks[1], f));
        press(&mut app, Key::Enter);
        assert_eq!(snapshot(&app), before);
    }
}

#[test]
fn moving_down_then_up_restores_the_list() {
    let mut app = planner();
    for row in 0..2 {
        let before = snapshot(&app);
        let history = app.history.len();
        app.selected = Some(row);
        app.move_task_down();
        assert_ne!(snapshot(&app), before);
        app.move_task_up();
        assert_eq!(snapshot(&app), before);
        assert_eq!(app.selected, Some(row));
        assert_eq!(app.history.len(), history + 2);
        assert!(app.redo_history.is_empty());
    }
}

#[test]
fn loading_and_saving_every_field_keeps_the_project() {
    let mut app = planner();
    // Give the first task a manual start date with a four-digit year.
    app.selected = Some(0);
    app.selected_task_field = TaskField::StartDate;
    app.input_buffer = "03/04/2025".chars().collect();
    app.save_buffer_to_task_on(NOW);
    let fields = [
        TaskField::Name,
        TaskField::AssignedTo,
        TaskField::StartDate,
        TaskField::Duration,
        TaskField::Progress,
        TaskField::Dependencies,
    ];
    for row in 0..3 {
        for f in fields {
            if f == TaskField::StartDate && row > 0 {
                continue;
            }
            let before = snapshot(&app);
            let manual = app.get_current_project().tasks[row].manual_start_date;
            app.focus_area = FocusArea::Tasks;
            app.selected = Some(row);
            app.selected_task_field = f;
            gantt_planner::editing::load_buffer_for_editing(&mut app);
            app.save_buffer_to_task_on(NOW);
            assert_eq!(snapshot(&app), before);
            assert_eq!(app.get_current_project().tasks[row].manual_start_date, manual);
        }
    }
    for f in [ProjectField::Name, ProjectField::StartDate, ProjectField::WeekToShow] {
        let p = app.get_current_project();
        let before = (p.project_name.clone(), p.project_start_date, p.week_to_show);
        app.selected = None;
        app.focus_area = FocusArea::Project(f);
        gantt_planner::editing::load_buffer_for_editing(&mut app);
        app.save_buffer_to_task_on(NOW);
        let p = app.get_current_project();
        assert_eq!((p.project_name.clone(), p.project_start_date, p.week_to_show), before);
    }
}
