//! The scheduler: places every task whose dependencies can be resolved on
//! the calendar, in rounds.
//!
//! A task with dependencies starts the day after the latest end among its
//! dependencies that are already placed (or on the project start when none
//! of them is a task of the project); a task without dependencies starts on
//! its manual start date, or else on the project start. It lasts
//! `max(duration, 1)` days. A task waits while one of its dependencies is a
//! task of the project that is not placed yet. Each round walks the waiting
//! tasks in order, so a task placed early in a round already counts for the
//! tasks after it; after 100 rounds the tasks still waiting stay unplaced.
use vstd::prelude::*;
use std::collections::HashMap;
use crate::date::{day_in_range, add_days};
use crate::model::{Task, TaskModel, tasks_model};

verus! {

broadcast use {
    vstd::std_specs::hash::group_hash_axioms,
    vstd::std_specs::hash::axiom_u32_obeys_hash_table_key_model,
    vstd::std_specs::hash::axiom_random_state_builds_valid_hashers,
};

/// The number of rounds after which the scheduler gives up.
pub const MAX_ROUNDS: usize = 100usize;

/// Some task of the list has this id.
pub open spec fn has_task_id(tasks: Seq<TaskModel>, id: u32) -> bool {
    exists|i: int| 0 <= i < tasks.len() && tasks[i].id == id
}

/// The position of the last task with this id, or -1. Looking a task up
/// by its id yields the task at this position.
pub open spec fn last_index_of_id(tasks: Seq<TaskModel>, id: u32) -> int
    decreases tasks.len(),
{
    if tasks.len() == 0 {
        -1
    } else if tasks.last().id == id {
        tasks.len() - 1
    } else {
        last_index_of_id(tasks.drop_last(), id)
    }
}

/// Every dependency is placed already, or is no task of the project.
pub open spec fn deps_ready(tasks: Seq<TaskModel>, calc: Map<u32, (i32, i32)>, deps: Seq<u32>) -> bool {
    forall|k: int| 0 <= k < deps.len() ==> calc.contains_key(#[trigger] deps[k]) || !has_task_id(tasks, deps[k])
}

/// The latest end among the dependencies that are placed.
pub open spec fn latest_end(calc: Map<u32, (i32, i32)>, deps: Seq<u32>) -> Option<i32>
    decreases deps.len(),
{
    if deps.len() == 0 {
        None
    } else {
        let rest = latest_end(calc, deps.drop_last());
        let d = deps.last();
        if calc.contains_key(d) {
            let e = calc[d].1;
            match rest {
                Some(m) => Some(if e > m { e } else { m }),
                None => Some(e),
            }
        } else {
            rest
        }
    }
}

/// The day a ready task starts.
pub open spec fn planned_start(t: TaskModel, project_start: i32, calc: Map<u32, (i32, i32)>) -> int {
    if t.dependencies.len() > 0 {
        match latest_end(calc, t.dependencies) {
            Some(e) => e + 1,
            None => project_start as int,
        }
    } else {
        match t.manual_start_date {
            Some(m) => m as int,
            None => project_start as int,
        }
    }
}

/// The number of days from a task's first day to its last: a task lasts
/// at least one day.
pub open spec fn span_days(duration: i64) -> int {
    if duration >= 1 { duration - 1 } else { 0 }
}

/// What one round leaves: the placed tasks, whether every date computed so
/// far stayed on the calendar, and the ids still waiting, in order.
pub struct RoundState {
    pub calc: Map<u32, (i32, i32)>,
    pub ok: bool,
    pub waiting: Seq<u32>,
}

/// One round over the waiting ids, in order.
pub open spec fn round(
    tasks: Seq<TaskModel>,
    project_start: i32,
    calc: Map<u32, (i32, i32)>,
    ok: bool,
    pending: Seq<u32>,
) -> RoundState
    decreases pending.len(),
{
    if pending.len() == 0 {
        RoundState { calc, ok, waiting: Seq::empty() }
    } else {
        let before = round(tasks, project_start, calc, ok, pending.drop_last());
        let id = pending.last();
        let t = tasks[last_index_of_id(tasks, id)];
        if deps_ready(tasks, before.calc, t.dependencies) {
            let s = planned_start(t, project_start, before.calc);
            let e = s + span_days(t.duration);
            RoundState {
                calc: before.calc.insert(id, (s as i32, e as i32)),
                ok: before.ok && day_in_range(s) && day_in_range(e),
                waiting: before.waiting,
            }
        } else {
            RoundState { calc: before.calc, ok: before.ok, waiting: before.waiting.push(id) }
        }
    }
}

/// Rounds until nothing waits or `MAX_ROUNDS` rounds have run.
pub open spec fn rounds(
    tasks: Seq<TaskModel>,
    project_start: i32,
    calc: Map<u32, (i32, i32)>,
    ok: bool,
    pending: Seq<u32>,
    done: nat,
) -> (Map<u32, (i32, i32)>, bool)
    decreases MAX_ROUNDS - done,
{
    if pending.len() == 0 || done >= MAX_ROUNDS {
        (calc, ok)
    } else {
        let r = round(tasks, project_start, calc, ok, pending);
        rounds(tasks, project_start, r.calc, r.ok, r.waiting, done + 1)
    }
}

/// The ids of the tasks, in order.
pub open spec fn task_ids(tasks: Seq<TaskModel>) -> Seq<u32> {
    tasks.map_values(|t: TaskModel| t.id)
}

/// The placement of every task that the scheduler places, by id, and
/// whether every date it computes stays on the calendar (where one does
/// not, the scheduler panics).
pub open spec fn placement(tasks: Seq<TaskModel>, project_start: i32) -> (Map<u32, (i32, i32)>, bool) {
    rounds(tasks, project_start, Map::empty(), true, task_ids(tasks), 0)
}

/// A task with the dates that a placement gives it.
pub open spec fn placed_task(t: TaskModel, calc: Map<u32, (i32, i32)>) -> TaskModel {
    if calc.contains_key(t.id) {
        TaskModel { start_date: Some(calc[t.id].0), end_date: Some(calc[t.id].1), ..t }
    } else {
        TaskModel { start_date: None, end_date: None, ..t }
    }
}

/// The tasks after scheduling.
pub open spec fn scheduled_tasks(tasks: Seq<TaskModel>, project_start: i32) -> Seq<TaskModel> {
    let calc = placement(tasks, project_start).0;
    tasks.map_values(|t: TaskModel| placed_task(t, calc))
}

/// The largest task id, or 0 for no task.
pub open spec fn max_task_id(tasks: Seq<TaskModel>) -> int
    decreases tasks.len(),
{
    if tasks.len() == 0 {
        0
    } else {
        let m = max_task_id(tasks.drop_last());
        if tasks.last().id > m { tasks.last().id as int } else { m }
    }
}

/// Scheduling these tasks does not panic: the next id fits in a `u32` and
/// every computed date stays on the calendar.
pub open spec fn schedule_fits(tasks: Seq<TaskModel>, project_start: i32) -> bool {
    &&& max_task_id(tasks) < u32::MAX
    &&& placement(tasks, project_start).1
}

/// The manual start dates are dates chrono can represent.
pub open spec fn manual_dates_valid(tasks: Seq<TaskModel>) -> bool {
    forall|i: int| 0 <= i < tasks.len() ==> ((#[trigger] tasks[i]).manual_start_date matches Some(d) ==> day_in_range(d as int))
}

// ---------------------------------------------------------------------
// Lemmas

pub(crate) proof fn lemma_last_index_of_id(tasks: Seq<TaskModel>, id: u32)
    ensures
        -1 <= last_index_of_id(tasks, id) < tasks.len(),
        last_index_of_id(tasks, id) >= 0 <==> has_task_id(tasks, id),
        last_index_of_id(tasks, id) >= 0 ==> tasks[last_index_of_id(tasks, id)].id == id,
        forall|j: int| last_index_of_id(tasks, id) < j < tasks.len() ==> tasks[j].id != id,
    decreases tasks.len(),
{
    if tasks.len() > 0 {
        lemma_last_index_of_id(tasks.drop_last(), id);
        if tasks.last().id != id {
            assert forall|j: int| last_index_of_id(tasks, id) < j < tasks.len() implies tasks[j].id != id by {
                if j < tasks.len() - 1 {
                    assert(tasks[j] == tasks.drop_last()[j]);
                }
            }
            if has_task_id(tasks, id) {
                let i = choose|i: int| 0 <= i < tasks.len() && tasks[i].id == id;
                assert(tasks.drop_last()[i].id == id);
            }
            if has_task_id(tasks.drop_last(), id) {
                let i = choose|i: int| 0 <= i < tasks.drop_last().len() && tasks.drop_last()[i].id == id;
                assert(tasks[i].id == id);
            }
        }
    }
}

pub(crate) proof fn lemma_round_ok_prefix(
    tasks: Seq<TaskModel>,
    project_start: i32,
    calc: Map<u32, (i32, i32)>,
    ok: bool,
    pending: Seq<u32>,
    k: int,
)
    requires
        0 <= k <= pending.len(),
        round(tasks, project_start, calc, ok, pending).ok,
    ensures
        round(tasks, project_start, calc, ok, pending.take(k)).ok,
    decreases pending.len(),
{
    if k < pending.len() {
        assert(pending.drop_last().take(k) =~= pending.take(k));
        lemma_round_ok_prefix(tasks, project_start, calc, ok, pending.drop_last(), k);
    } else {
        assert(pending.take(k) =~= pending);
    }
}

proof fn lemma_round_not_ok(
    tasks: Seq<TaskModel>,
    project_start: i32,
    calc: Map<u32, (i32, i32)>,
    pending: Seq<u32>,
)
    ensures
        !round(tasks, project_start, calc, false, pending).ok,
    decreases pending.len(),
{
    if pending.len() > 0 {
        lemma_round_not_ok(tasks, project_start, calc, pending.drop_last());
    }
}

pub(crate) proof fn lemma_rounds_not_ok(
    tasks: Seq<TaskModel>,
    project_start: i32,
    calc: Map<u32, (i32, i32)>,
    pending: Seq<u32>,
    done: nat,
)
    ensures
        !rounds(tasks, project_start, calc, false, pending, done).1,
    decreases MAX_ROUNDS - done,
{
    if !(pending.len() == 0 || done >= MAX_ROUNDS) {
        lemma_round_not_ok(tasks, project_start, calc, pending);
        let r = round(tasks, project_start, calc, false, pending);
        lemma_rounds_not_ok(tasks, project_start, r.calc, r.waiting, done + 1);
    }
}

proof fn lemma_latest_end_is_placed(calc: Map<u32, (i32, i32)>, deps: Seq<u32>)
    ensures
        latest_end(calc, deps) matches Some(e) ==> exists|d: u32| calc.contains_key(d) && calc[d].1 == e,
    decreases deps.len(),
{
    if deps.len() > 0 {
        lemma_latest_end_is_placed(calc, deps.drop_last());
    }
}

pub(crate) proof fn lemma_round_waiting_from_pending(
    tasks: Seq<TaskModel>,
    project_start: i32,
    calc: Map<u32, (i32, i32)>,
    ok: bool,
    pending: Seq<u32>,
)
    ensures
        forall|k: int| 0 <= k < round(tasks, project_start, calc, ok, pending).waiting.len()
            ==> pending.contains(#[trigger] round(tasks, project_start, calc, ok, pending).waiting[k]),
    decreases pending.len(),
{
    if pending.len() > 0 {
        lemma_round_waiting_from_pending(tasks, project_start, calc, ok, pending.drop_last());
        let before = round(tasks, project_start, calc, ok, pending.drop_last());
        assert forall|k: int| 0 <= k < before.waiting.len() implies pending.contains(#[trigger] before.waiting[k]) by {
            let j = choose|j: int| 0 <= j < pending.drop_last().len() && pending.drop_last()[j] == before.waiting[k];
            assert(pending[j] == before.waiting[k]);
        }
        assert(pending[pending.len() - 1] == pending.last());
    }
}

// ---------------------------------------------------------------------
// Executable scheduler

/// For each id of a task, the position of the last task with that id.
pub(crate) fn index_by_id(tasks: &Vec<Task>) -> (m: HashMap<u32, usize>)
    ensures
        forall|id: u32| #![trigger m@.contains_key(id)]
            m@.contains_key(id) <==> has_task_id(tasks_model(tasks@), id),
        forall|id: u32| #![trigger m@[id]]
            m@.contains_key(id) ==> m@[id] as int == last_index_of_id(tasks_model(tasks@), id),
{
    let ghost tm = tasks_model(tasks@);
    let mut m: HashMap<u32, usize> = HashMap::new();
    for i in 0..tasks.len()
        invariant
            tm == tasks_model(tasks@),
            forall|id: u32| #![trigger m@.contains_key(id)]
                m@.contains_key(id) <==> has_task_id(tm.take(i as int), id),
            forall|id: u32| #![trigger m@[id]]
                m@.contains_key(id) ==> m@[id] as int == last_index_of_id(tm.take(i as int), id),
    {
        m.insert(tasks[i].id, i);
        proof {
            let pre = tm.take(i as int);
            let post = tm.take(i + 1);
            assert(post.drop_last() =~= pre);
            assert forall|id: u32| #![trigger m@.contains_key(id)]
                m@.contains_key(id) <==> has_task_id(post, id) by {
                lemma_last_index_of_id(pre, id);
                lemma_last_index_of_id(post, id);
            }
        }
    }
    assert(tm.take(tasks.len() as int) =~= tm);
    m
}

/// Whether every dependency is placed already or is no task of the project.
fn deps_are_ready(
    Ghost(tm): Ghost<Seq<TaskModel>>,
    by_id: &HashMap<u32, usize>,
    calc: &HashMap<u32, (i32, i32)>,
    deps: &Vec<u32>,
) -> (r: bool)
    requires
        forall|id: u32| #![trigger by_id@.contains_key(id)]
            by_id@.contains_key(id) <==> has_task_id(tm, id),
    ensures
        r == deps_ready(tm, calc@, deps@),
{
    for k in 0..deps.len()
        invariant
            forall|id: u32| #![trigger by_id@.contains_key(id)]
                by_id@.contains_key(id) <==> has_task_id(tm, id),
            forall|j: int| 0 <= j < k ==> calc@.contains_key(#[trigger] deps@[j]) || !has_task_id(tm, deps@[j]),
    {
        let d = deps[k];
        if !calc.contains_key(&d) && by_id.contains_key(&d) {
            return false;
        }
    }
    true
}

/// The latest end among the placed dependencies.
fn latest_end_of(calc: &HashMap<u32, (i32, i32)>, deps: &Vec<u32>) -> (r: Option<i32>)
    ensures
        r == latest_end(calc@, deps@),
{
    let mut cur: Option<i32> = None;
    for k in 0..deps.len()
        invariant
            cur == latest_end(calc@, deps@.take(k as int)),
    {
        assert(deps@.take(k + 1).drop_last() =~= deps@.take(k as int));
        let d = deps[k];
        match calc.get(&d) {
            Some(v) => {
                let e = v.1;
                cur = match cur {
                    Some(m) => Some(if e > m { e } else { m }),
                    None => Some(e),
                };
            },
            None => {},
        }
    }
    assert(deps@.take(deps.len() as int) =~= deps@);
    cur
}

/// Every placed task lies on the calendar.
pub open spec fn calc_in_range(calc: Map<u32, (i32, i32)>) -> bool {
    forall|id: u32| #[trigger] calc.contains_key(id) ==> day_in_range(calc[id].0 as int) && day_in_range(calc[id].1 as int)
}

/// One round: `None` where a date leaves the calendar; otherwise the ids still waiting, with `calc` extended.
fn run_round(
    tasks: &Vec<Task>,
    by_id: &HashMap<u32, usize>,
    project_start: i32,
    calc: &mut HashMap<u32, (i32, i32)>,
    pending: &Vec<u32>,
) -> (r: Option<Vec<u32>>)
    requires
        day_in_range(project_start as int),
        manual_dates_valid(tasks_model(tasks@)),
        calc_in_range(old(calc)@),
        forall|id: u32| #![trigger by_id@.contains_key(id)]
            by_id@.contains_key(id) <==> has_task_id(tasks_model(tasks@), id),
        forall|id: u32| #![trigger by_id@[id]]
            by_id@.contains_key(id) ==> by_id@[id] as int == last_index_of_id(tasks_model(tasks@), id),
        forall|k: int| 0 <= k < pending@.len() ==> has_task_id(tasks_model(tasks@), #[trigger] pending@[k]),
    ensures
        r is Some <==> round(tasks_model(tasks@), project_start, old(calc)@, true, pending@).ok,
        r matches Some(w) ==> {
            &&& w@ == round(tasks_model(tasks@), project_start, old(calc)@, true, pending@).waiting
            &&& final(calc)@ == round(tasks_model(tasks@), project_start, old(calc)@, true, pending@).calc
            &&& calc_in_range(final(calc)@)
        },
{
    let ghost tm = tasks_model(tasks@);
    let ghost calc0 = calc@;
    let mut waiting: Vec<u32> = Vec::new();
    for i in 0..pending.len()
        invariant
            tm == tasks_model(tasks@),
            day_in_range(project_start as int),
            manual_dates_valid(tm),
            forall|id: u32| #![trigger by_id@.contains_key(id)]
                by_id@.contains_key(id) <==> has_task_id(tm, id),
            forall|id: u32| #![trigger by_id@[id]]
                by_id@.contains_key(id) ==> by_id@[id] as int == last_index_of_id(tm, id),
            forall|k: int| 0 <= k < pending@.len() ==> has_task_id(tm, #[trigger] pending@[k]),
            calc0 == old(calc)@,
            round(tm, project_start, calc0, true, pending@.take(i as int)).ok,
            round(tm, project_start, calc0, true, pending@.take(i as int)).calc == calc@,
            round(tm, project_start, calc0, true, pending@.take(i as int)).waiting == waiting@,
            calc_in_range(calc@),
    {
        let ghost pre = pending@.take(i as int);
        let ghost post = pending@.take(i + 1);
        assert(post.drop_last() =~= pre);
        let id = pending[i];
        assert(post.last() == id);
        assert(has_task_id(tm, pending@[i as int]));
        proof { lemma_last_index_of_id(tm, id); }
        let idx = *by_id.get(&id).unwrap();
        let task = &tasks[idx];
        assert(tm[idx as int] == task@);
        if deps_are_ready(Ghost(tm), by_id, calc, &task.dependencies) {
            let start: i32 = if task.dependencies.len() > 0 {
                let latest = latest_end_of(calc, &task.dependencies);
                proof { lemma_latest_end_is_placed(calc@, task.dependencies@); }
                match latest {
                    Some(e) => {
                        match add_days(e, 1) {
                            Some(s) => s,
                            None => {
                                proof {
                                    assert(!round(tm, project_start, calc0, true, post).ok);
                                    if round(tm, project_start, calc0, true, pending@).ok {
                                        lemma_round_ok_prefix(tm, project_start, calc0, true, pending@, i + 1);
                                    }
                                }
                                return None;
                            },
                        }
                    },
                    None => project_start,
                }
            } else {
                match task.manual_start_date {
                    Some(m) => m,
                    None => project_start,
                }
            };
            assert(start as int == planned_start(task@, project_start, calc@));
            let span: i64 = if task.duration >= 1 { task.duration - 1 } else { 0 };
            let end: i32 = match add_days(start, span) {
                Some(e) => e,
                None => {
                    proof {
                        assert(!round(tm, project_start, calc0, true, post).ok);
                        if round(tm, project_start, calc0, true, pending@).ok {
                            lemma_round_ok_prefix(tm, project_start, calc0, true, pending@, i + 1);
                        }
                    }
                    return None;
                },
            };
            calc.insert(id, (start, end));
        } else {
            waiting.push(id);
        }
    }
    assert(pending@.take(pending.len() as int) =~= pending@);
    Some(waiting)
}

/// Runs the scheduler: the placement by id, or `None` where a computed date
/// leaves the calendar.
pub fn compute_placement(tasks: &Vec<Task>, project_start: i32) -> (r: Option<HashMap<u32, (i32, i32)>>)
    requires
        day_in_range(project_start as int),
        manual_dates_valid(tasks_model(tasks@)),
    ensures
        r is Some <==> placement(tasks_model(tasks@), project_start).1,
        r matches Some(m) ==> m@ == placement(tasks_model(tasks@), project_start).0,
        r matches Some(m) ==> calc_in_range(m@),
{
    let ghost tm = tasks_model(tasks@);
    let by_id = index_by_id(tasks);
    let mut calc: HashMap<u32, (i32, i32)> = HashMap::new();
    let mut pending: Vec<u32> = Vec::new();
    for i in 0..tasks.len()
        invariant
            tm == tasks_model(tasks@),
            pending@ == task_ids(tm).take(i as int),
    {
        pending.push(tasks[i].id);
        assert(pending@ =~= task_ids(tm).take(i + 1));
    }
    assert(pending@ =~= task_ids(tm));
    let mut done: usize = 0;
    while pending.len() > 0 && done < MAX_ROUNDS
        invariant
            tm == tasks_model(tasks@),
            day_in_range(project_start as int),
            manual_dates_valid(tm),
            done <= MAX_ROUNDS,
            forall|id: u32| #![trigger by_id@.contains_key(id)]
                by_id@.contains_key(id) <==> has_task_id(tm, id),
            forall|id: u32| #![trigger by_id@[id]]
                by_id@.contains_key(id) ==> by_id@[id] as int == last_index_of_id(tm, id),
            forall|k: int| 0 <= k < pending@.len() ==> has_task_id(tm, #[trigger] pending@[k]),
            calc_in_range(calc@),
            rounds(tm, project_start, calc@, true, pending@, done as nat) == placement(tm, project_start),
        decreases MAX_ROUNDS - done,
    {
        proof {
            assert forall|k: int| 0 <= k < pending@.len() implies has_task_id(tm, #[trigger] pending@[k]) by {}
        }
        let ghost r = round(tm, project_start, calc@, true, pending@);
        let ghost calc_before = calc@;
        let ghost old_pending = pending@;
        match run_round(tasks, &by_id, project_start, &mut calc, &pending) {
            Some(w) => {
                proof { lemma_round_waiting_from_pending(tm, project_start, calc_before, true, pending@); }
                pending = w;
                done = done + 1;
                proof {
                    assert forall|k: int| 0 <= k < pending@.len() implies has_task_id(tm, #[trigger] pending@[k]) by {
                        let j = choose|j: int| 0 <= j < old_pending.len() && old_pending[j] == pending@[k];
                    }
                }
            },
            None => {
                proof { lemma_rounds_not_ok(tm, project_start, r.calc, r.waiting, (done + 1) as nat); }
                return None;
            },
        }
    }
    Some(calc)
}

/// Gives each task the dates of the placement, or none where the
/// placement has no entry for its id.
fn apply_placement(tasks: &mut Vec<Task>, calc: &HashMap<u32, (i32, i32)>)
    ensures
        tasks_model(final(tasks)@) == old(tasks)@.map_values(|t: Task| placed_task(t@, calc@)),
{
    let ghost orig = old(tasks)@;
    let n = tasks.len();
    for i in 0..n
        invariant
            n == tasks@.len(),
            orig.len() == n,
            forall|j: int| 0 <= j < i ==> (#[trigger] tasks@[j])@ == placed_task(orig[j]@, calc@),
            forall|j: int| i <= j < n ==> (#[trigger] tasks@[j]) == orig[j],
    {
        let id = tasks[i].id;
        let dates = match calc.get(&id) {
            Some(v) => (Some(v.0), Some(v.1)),
            None => (None, None),
        };
        let mut t = tasks.remove(i);
        t.start_date = dates.0;
        t.end_date = dates.1;
        tasks.insert(i, t);
    }
    assert(tasks_model(tasks@) =~= orig.map_values(|t: Task| placed_task(t@, calc@)));
}

/// The largest task id, or 0 for no task.
pub fn max_id(tasks: &Vec<Task>) -> (r: u32)
    ensures
        r as int == max_task_id(tasks_model(tasks@)),
{
    let ghost tm = tasks_model(tasks@);
    let mut m: u32 = 0;
    for i in 0..tasks.len()
        invariant
            tm == tasks_model(tasks@),
            m as int == max_task_id(tm.take(i as int)),
    {
        assert(tm.take(i + 1).drop_last() =~= tm.take(i as int));
        if tasks[i].id > m {
            m = tasks[i].id;
        }
    }
    assert(tm.take(tasks.len() as int) =~= tm);
    m
}

/// Whether scheduling these tasks goes through without a panic.
pub fn schedule_would_fit(tasks: &Vec<Task>, project_start: i32) -> (r: bool)
    requires
        day_in_range(project_start as int),
        manual_dates_valid(tasks_model(tasks@)),
    ensures
        r == schedule_fits(tasks_model(tasks@), project_start),
{
    max_id(tasks) < u32::MAX && compute_placement(tasks, project_start).is_some()
}

/// Schedules the tasks and returns the id the next new task gets (one past
/// the largest id).
pub fn schedule_tasks(tasks: &mut Vec<Task>, project_start: i32) -> (next_id: u32)
    requires
        day_in_range(project_start as int),
        manual_dates_valid(tasks_model(old(tasks)@)),
        schedule_fits(tasks_model(old(tasks)@), project_start),
    ensures
        tasks_model(final(tasks)@) == scheduled_tasks(tasks_model(old(tasks)@), project_start),
        next_id == max_task_id(tasks_model(old(tasks)@)) + 1,
        calc_in_range(placement(tasks_model(old(tasks)@), project_start).0),
{
    let ghost tm = tasks_model(tasks@);
    let next_id = max_id(tasks) + 1;
    let calc = compute_placement(tasks, project_start).unwrap();
    apply_placement(tasks, &calc);
    assert(tasks_model(tasks@) =~= scheduled_tasks(tm, project_start));
    next_id
}

} // verus!
