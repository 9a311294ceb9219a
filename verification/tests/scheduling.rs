use gantt_planner::date::{MAX_DAY, MIN_DAY};
use gantt_planner::model::Task;
use gantt_planner::schedule::{compute_placement, max_id, schedule_tasks, schedule_would_fit};

fn task(id: u32, duration: i64, deps: &[u32]) -> Task {
    let mut t = Task::new("t".chars().collect(), Vec::new(), duration, 0, deps.to_vec());
    t.id = id;
    t
}

fn dates(tasks: &[Task]) -> Vec<(Option<i32>, Option<i32>)> {
    tasks.iter().map(|t| (t.start_date, t.end_date)).collect()
}

#[test]
fn chain_starts_after_each_dependency_ends() {
    let mut tasks = vec![task(1, 5, &[]), task(2, 7, &[1]), task(3, 2, &[1, 2])];
    let next = schedule_tasks(&mut tasks, 1000);
    assert_eq!(next, 4);
    assert_eq!(
        dates(&tasks),
        vec![(Some(1000), Some(1004)), (Some(1005), Some(1011)), (Some(1012), Some(1013))]
    );
}

#[test]
fn chain_in_reverse_order_is_placed_over_several_rounds() {
    let mut tasks = vec![task(3, 1, &[2]), task(2, 1, &[1]), task(1, 1, &[])];
    schedule_tasks(&mut tasks, 50);
    assert_eq!(dates(&tasks), vec![(Some(52), Some(52)), (Some(51), Some(51)), (Some(50), Some(50))]);
}

#[test]
fn a_task_lasts_at_least_one_day() {
    let mut tasks = vec![task(1, 0, &[]), task(2, -4, &[])];
    schedule_tasks(&mut tasks, 10);
    assert_eq!(dates(&tasks), vec![(Some(10), Some(10)), (Some(10), Some(10))]);
}

#[test]
fn manual_start_counts_only_without_dependencies() {
    let mut a = task(1, 3, &[]);
    a.manual_start_date = Some(200);
    let mut b = task(2, 1, &[1]);
    b.manual_start_date = Some(500);
    let mut tasks = vec![a, b];
    schedule_tasks(&mut tasks, 100);
    assert_eq!(dates(&tasks), vec![(Some(200), Some(202)), (Some(203), Some(203))]);
}

#[test]
fn dependencies_on_unknown_ids_are_ignored() {
    let mut tasks = vec![task(1, 2, &[99]), task(2, 1, &[1, 77])];
    schedule_tasks(&mut tasks, 0);
    assert_eq!(dates(&tasks), vec![(Some(0), Some(1)), (Some(2), Some(2))]);
}

#[test]
fn tasks_in_a_cycle_stay_unscheduled() {
    let mut tasks = vec![task(1, 2, &[2]), task(2, 2, &[1]), task(3, 1, &[])];
    schedule_tasks(&mut tasks, 0);
    assert_eq!(dates(&tasks), vec![(None, None), (None, None), (Some(0), Some(0))]);
}

#[test]
fn scheduler_gives_up_after_one_hundred_rounds() {
    // 102 tasks, each depending on the next one in the list: one task is
    // placed per round, from the end of the list.
    let n: u32 = 102;
    let mut tasks: Vec<Task> = (1..=n).map(|i| task(i, 1, if i < n { &[0][..0] } else { &[] })).collect();
    for i in 0..(n as usize - 1) {
        tasks[i].dependencies = vec![(i + 2) as u32];
    }
    schedule_tasks(&mut tasks, 0);
    assert_eq!(tasks[101].start_date, Some(0));
    assert_eq!(tasks[2].start_date, Some(99));
    assert_eq!(tasks[1].start_date, None);
    assert_eq!(tasks[0].start_date, None);
}

#[test]
fn repeated_ids_share_the_last_tasks_placement() {
    let mut tasks = vec![task(0, 5, &[]), task(0, 7, &[1])];
    schedule_tasks(&mut tasks, 739099);
    assert_eq!(dates(&tasks), vec![(Some(739099), Some(739105)), (Some(739099), Some(739105))]);
}

#[test]
fn next_id_is_one_past_the_largest() {
    let tasks = vec![task(4, 1, &[]), task(9, 1, &[]), task(2, 1, &[])];
    assert_eq!(max_id(&tasks), 9);
    let mut tasks = tasks;
    assert_eq!(schedule_tasks(&mut tasks, 0), 10);
    assert_eq!(max_id(&Vec::new()), 0);
}

#[test]
fn dates_past_the_calendar_are_detected() {
    let tasks = vec![task(1, 3, &[])];
    assert!(!schedule_would_fit(&tasks, MAX_DAY - 1));
    assert!(compute_placement(&tasks, MAX_DAY - 1).is_none());
    assert!(schedule_would_fit(&tasks, MAX_DAY - 2));
    let chained = vec![task(1, 1, &[]), task(2, 1, &[1])];
    assert!(!schedule_would_fit(&chained, MAX_DAY));
    assert!(schedule_would_fit(&chained, MIN_DAY));
    let huge = vec![task(1, i64::MAX, &[])];
    assert!(!schedule_would_fit(&huge, 0));
}

#[test]
fn largest_id_cannot_be_followed() {
    let tasks = vec![task(u32::MAX, 1, &[])];
    assert!(!schedule_would_fit(&tasks, 0));
}

#[test]
fn tasks_behind_a_cycle_stay_unscheduled() {
    // 3 waits for 2, which sits on the cycle 1 -> 2 -> 1; 4 is free.
    let mut tasks = vec![task(1, 2, &[2]), task(2, 2, &[1]), task(3, 1, &[2]), task(4, 1, &[])];
    schedule_tasks(&mut tasks, 0);
    assert_eq!(dates(&tasks), vec![(None, None), (None, None), (None, None), (Some(0), Some(0))]);
}
