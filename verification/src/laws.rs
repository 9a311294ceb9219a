//! Properties of the planner as a whole, each stated over the models and
//! proved.
use vstd::prelude::*;
use crate::model::{TaskModel, ProjectModel};
use crate::app::{AppModel, FocusArea, ProjectField, TaskField, InputMode, HighlightMode};
use crate::display::{row_look_of, RowLook};
use crate::schedule::{
    scheduled_tasks, max_task_id, has_task_id, last_index_of_id, lemma_last_index_of_id, round, rounds, placement,
    task_ids, deps_ready, latest_end, planned_start, span_days, placed_task, MAX_ROUNDS,
    lemma_round_ok_prefix, lemma_rounds_not_ok, lemma_round_waiting_from_pending,
};
use crate::date::{day_in_range, MIN_DAY, MAX_DAY};
use crate::text::{
    decimal, split_commas, ids_in_pieces, ids_in_list, trim, parsed_u32, lemma_split_append,
    lemma_u32_reads_back, lemma_decimal_reads_back, lemma_u8_reads_back, lemma_i64_reads_back,
    is_digit, all_digits, signed_decimal, parsed_i64, parsed_u8,
};
use crate::editing::{joined_ids, field_text, edited_task, duration_from_text, progress_from_text, date_reads_back, deps_cleared_message};
use crate::remap::{renumbered, renumbered_deps, number_at};
use crate::nav::{next_field, previous_field};
use crate::keys::{Key, KeyPress, Mods};

verus! {

/// The project with its tasks scheduled from its start date.
pub open spec fn scheduled_project(p: ProjectModel) -> ProjectModel {
    ProjectModel { tasks: scheduled_tasks(p.tasks, p.start), ..p }
}

// ---------------------------------------------------------------------
// Undo and redo

/// Undo brings back the latest saved state of the current project,
/// rescheduled, and keeps the state it replaces for redo.
pub proof fn law_undo_restores_saved_project(a: AppModel)
    requires
        a.wf(),
        a.history.len() > 0,
    ensures
        a.undone().cur() == scheduled_project(a.history.last()),
        a.undone().redo == a.redo.push(a.cur()),
        a.undone().history == a.history.drop_last(),
        a.undone().current == a.current,
{
}

/// Redo after undo brings back the project that was undone (rescheduled),
/// and the redo history is as it was before the undo.
pub proof fn law_redo_reverts_undo(a: AppModel)
    requires
        a.wf(),
        a.history.len() > 0,
    ensures
        a.undone().redone().cur() == scheduled_project(a.cur()),
        a.undone().redone().redo == a.redo,
        a.undone().redone().history.len() == a.history.len(),
{
    let b = a.undone();
    assert(b.redo.last() == a.cur());
    assert(b.redo.drop_last() =~= a.redo);
}

/// Committing an edit and then undoing it brings back the project as it
/// was before the edit (rescheduled); the edited project can be redone.
pub proof fn law_undo_reverts_edit(a: AppModel, now: i32)
    requires
        a.wf(),
    ensures
        a.edit_committed(now).undone().cur() == scheduled_project(a.cur()),
        a.edit_committed(now).undone().history == a.history,
        a.edit_committed(now).undone().redo == seq![a.edit_committed(now).cur()],
{
    let b = a.edit_committed(now);
    assert(b.history == a.history.push(a.cur()));
    assert(b.history.drop_last() =~= a.history);
    assert(b.redo =~= Seq::<ProjectModel>::empty());
    assert(Seq::<ProjectModel>::empty().push(b.cur()) =~= seq![b.cur()]);
}

/// Deleting the selected task and then undoing brings back the project as
/// it was (rescheduled).
pub proof fn law_undo_reverts_delete(a: AppModel)
    requires
        a.wf(),
        a.task_row_selected(),
    ensures
        a.deleted_selected().undone().cur() == scheduled_project(a.cur()),
        a.deleted_selected().undone().history == a.history,
{
    let b = a.deleted_selected();
    assert(b.history == a.history.push(a.cur()));
    assert(b.history.drop_last() =~= a.history);
}

/// Adding a task and then undoing brings back the project as it was
/// (rescheduled).
pub proof fn law_undo_reverts_add(a: AppModel, t: TaskModel)
    requires
        a.wf(),
    ensures
        a.with_added_task(t).0.remapped().undone().cur() == scheduled_project(a.cur()),
        a.with_added_task(t).0.remapped().undone().history == a.history,
{
    let b = a.with_added_task(t).0.remapped();
    assert(b.history == a.history.push(a.cur()));
    assert(b.history.drop_last() =~= a.history);
}

/// Moving a task up and then undoing brings back the project as it was
/// (rescheduled).
pub proof fn law_undo_reverts_move_up(a: AppModel)
    requires
        a.wf(),
        a.task_row_selected(),
        a.selected->0 > 0,
    ensures
        a.moved_up().undone().cur() == scheduled_project(a.cur()),
        a.moved_up().undone().history == a.history,
{
    let b = a.moved_up();
    assert(b.history == a.history.push(a.cur()));
    assert(b.history.drop_last() =~= a.history);
}

/// With nothing to undo, undo changes nothing but the message.
pub proof fn law_undo_with_empty_history(a: AppModel)
    requires
        a.history.len() == 0,
    ensures
        a.undone() == (AppModel { status: "Nothing to undo."@, ..a }),
{
}

// ---------------------------------------------------------------------
// Projects

/// Switching to the next project and then to the previous one comes back
/// to the project one started from.
pub proof fn law_next_then_previous_project(a: AppModel)
    requires
        a.wf(),
        a.projects.len() > 1,
        a.projects.len() <= usize::MAX,
    ensures
        a.after_next_project().after_previous_project().current == a.current,
        a.after_next_project().after_previous_project().projects.len() == a.projects.len(),
{
    let n = a.projects.len() as int;
    let b = a.after_next_project();
    assert(0 <= (a.current + 1) % n < n) by (nonlinear_arith)
        requires 0 <= a.current < n, n > 1;
    assert(b.projects.len() == n);
    assert(b.current == (a.current + 1) % n);
    assert(((a.current + 1) % n + n - 1) % n == a.current) by (nonlinear_arith)
        requires 0 <= a.current < n, n > 1;
}

/// A new project is appended, becomes current, is empty, and every
/// existing project is kept as it was.
pub proof fn law_new_project_appends(a: AppModel, today: i32)
    requires
        a.wf(),
        a.projects.len() < usize::MAX,
    ensures
        a.with_new_project(today).projects.len() == a.projects.len() + 1,
        a.with_new_project(today).current == a.projects.len(),
        a.with_new_project(today).tasks().len() == 0,
        forall|i: int| 0 <= i < a.projects.len() ==> a.with_new_project(today).projects[i] == a.projects[i],
{
    let b = a.with_new_project(today);
    assert(b.projects[a.projects.len() as int].tasks =~= Seq::<TaskModel>::empty());
}

// ---------------------------------------------------------------------
// Cursor

/// Moving one column right and then left (or left, then right) comes back
/// to the same column.
pub proof fn law_field_steps_undo_each_other(f: TaskField)
    ensures
        previous_field(next_field(f)) == f,
        next_field(previous_field(f)) == f,
{
}

/// Six steps right go round the table once.
pub proof fn law_six_field_steps_go_round(f: TaskField)
    ensures
        next_field(next_field(next_field(next_field(next_field(next_field(f)))))) == f,
{
}

/// Moving down and then up comes back: between the project fields above
/// the week field, and between rows when a row below exists.
pub proof fn law_down_then_up(a: AppModel)
    requires
        a.wf(),
        a.focus_area == FocusArea::Project(ProjectField::Name)
            || a.focus_area == FocusArea::Project(ProjectField::StartDate)
            || (a.task_row_selected() && a.selected->0 < a.tasks().len() - 1),
        a.tasks().len() <= usize::MAX,
    ensures
        a.navigated_down().navigated_up() == a,
{
}

// ---------------------------------------------------------------------
// Editing

/// Typing a character and deleting it with Backspace leaves the edited
/// text as it was.
pub proof fn law_type_then_backspace(a: AppModel, c: char, now: i32)
    requires
        a.input_mode == InputMode::Editing,
        !a.details_view_open,
    ensures
        a.editing_key(KeyPress { key: Key::Char(c), mods: Mods::Plain }, now)
            .editing_key(KeyPress { key: Key::Backspace, mods: Mods::Plain }, now) == a,
{
    let b = a.editing_key(KeyPress { key: Key::Char(c), mods: Mods::Plain }, now);
    assert(b.input_buffer == a.input_buffer.push(c));
    assert(b.input_buffer.drop_last() =~= a.input_buffer);
}

// ---------------------------------------------------------------------
// Renumbering

/// After renumbering, the task at position `i` has number `i + 1` (as a
/// `u32`) and every dependency names a task of the project.
pub proof fn law_renumbered_ids(tasks: Seq<TaskModel>)
    requires
        tasks.len() <= u32::MAX,
    ensures
        renumbered(tasks).len() == tasks.len(),
        forall|i: int| 0 <= i < tasks.len() ==> (#[trigger] renumbered(tasks)[i]).id == i + 1,
        forall|i: int, k: int| 0 <= i < tasks.len() && 0 <= k < renumbered(tasks)[i].dependencies.len()
            ==> 1 <= #[trigger] renumbered(tasks)[i].dependencies[k] <= tasks.len(),
{
    assert forall|i: int, k: int| 0 <= i < tasks.len() && 0 <= k < renumbered(tasks)[i].dependencies.len()
        implies 1 <= #[trigger] renumbered(tasks)[i].dependencies[k] <= tasks.len() by {
        lemma_renumbered_deps_in_range(tasks, tasks[i].dependencies);
    }
}

proof fn lemma_renumbered_deps_in_range(tasks: Seq<TaskModel>, deps: Seq<u32>)
    requires
        tasks.len() <= u32::MAX,
    ensures
        forall|k: int| 0 <= k < renumbered_deps(tasks, deps).len() ==> 1 <= #[trigger] renumbered_deps(tasks, deps)[k] <= tasks.len(),
    decreases deps.len(),
{
    if deps.len() > 0 {
        lemma_renumbered_deps_in_range(tasks, deps.drop_last());
        lemma_last_index_of_id(tasks, deps.last());
        let rest = renumbered_deps(tasks, deps.drop_last());
        let r = renumbered_deps(tasks, deps);
        assert forall|k: int| 0 <= k < r.len() implies 1 <= #[trigger] r[k] <= tasks.len() by {
            if k < rest.len() {
                assert(r[k] == rest[k]);
            }
        }
    }
}

// ---------------------------------------------------------------------
// Scheduling

/// No two tasks share an id.
pub open spec fn ids_unique(tasks: Seq<TaskModel>) -> bool {
    forall|i: int, j: int| 0 <= i < j < tasks.len() ==> tasks[i].id != tasks[j].id
}

/// A placed task lasts its span and starts after each placed dependency
/// that is a task of the project ends.
spec fn entry_ok(tasks: Seq<TaskModel>, calc: Map<u32, (i32, i32)>, id: u32) -> bool {
    let t = tasks[last_index_of_id(tasks, id)];
    &&& has_task_id(tasks, id)
    &&& calc[id].1 as int == calc[id].0 as int + span_days(t.duration)
    &&& forall|k: int| 0 <= k < t.dependencies.len() && has_task_id(tasks, #[trigger] t.dependencies[k])
        ==> calc.contains_key(t.dependencies[k]) && calc[t.dependencies[k]].1 < calc[id].0
}

spec fn calc_good(tasks: Seq<TaskModel>, calc: Map<u32, (i32, i32)>) -> bool {
    forall|id: u32| #[trigger] calc.contains_key(id) ==> entry_ok(tasks, calc, id)
}

proof fn lemma_latest_end_bounds(calc: Map<u32, (i32, i32)>, deps: Seq<u32>)
    ensures
        forall|k: int| 0 <= k < deps.len() && calc.contains_key(#[trigger] deps[k]) ==>
            latest_end(calc, deps) is Some && calc[deps[k]].1 <= latest_end(calc, deps)->0,
    decreases deps.len(),
{
    if deps.len() > 0 {
        lemma_latest_end_bounds(calc, deps.drop_last());
        assert forall|k: int| 0 <= k < deps.len() && calc.contains_key(#[trigger] deps[k]) implies
            latest_end(calc, deps) is Some && calc[deps[k]].1 <= latest_end(calc, deps)->0 by {
            if k < deps.len() - 1 {
                assert(deps.drop_last()[k] == deps[k]);
            }
        }
    }
}

/// One round keeps the placed tasks well ordered, only adds tasks that
/// were pending, never changes a task placed before, and leaves waiting
/// exactly pending tasks that are not placed.
proof fn lemma_round_good(tasks: Seq<TaskModel>, start: i32, calc: Map<u32, (i32, i32)>, pending: Seq<u32>)
    requires
        calc_good(tasks, calc),
        round(tasks, start, calc, true, pending).ok,
        pending.no_duplicates(),
        forall|k: int| 0 <= k < pending.len() ==> !calc.contains_key(#[trigger] pending[k]),
        forall|k: int| 0 <= k < pending.len() ==> has_task_id(tasks, #[trigger] pending[k]),
    ensures
        calc_good(tasks, round(tasks, start, calc, true, pending).calc),
        forall|id: u32| #[trigger] round(tasks, start, calc, true, pending).calc.contains_key(id)
            ==> calc.contains_key(id) || pending.contains(id),
        forall|id: u32| #[trigger] calc.contains_key(id) ==> round(tasks, start, calc, true, pending).calc.contains_key(id)
            && round(tasks, start, calc, true, pending).calc[id] == calc[id],
        round(tasks, start, calc, true, pending).waiting.no_duplicates(),
        forall|k: int| 0 <= k < round(tasks, start, calc, true, pending).waiting.len()
            ==> !round(tasks, start, calc, true, pending).calc.contains_key(#[trigger] round(tasks, start, calc, true, pending).waiting[k]),
    decreases pending.len(),
{
    if pending.len() > 0 {
        let pre = pending.drop_last();
        let x = pending.last();
        lemma_round_ok_prefix(tasks, start, calc, true, pending, pending.len() - 1);
        assert(pending.take(pending.len() - 1) =~= pre);
        assert forall|k: int| 0 <= k < pre.len() implies !calc.contains_key(#[trigger] pre[k]) by {
            assert(pre[k] == pending[k]);
        }
        assert forall|k: int| 0 <= k < pre.len() implies has_task_id(tasks, #[trigger] pre[k]) by {
            assert(pre[k] == pending[k]);
        }
        assert(pre.no_duplicates()) by {
            assert forall|i: int, j: int| 0 <= i < pre.len() && 0 <= j < pre.len() && i != j implies pre[i] != pre[j] by {
                assert(pre[i] == pending[i] && pre[j] == pending[j]);
            }
        }
        lemma_round_good(tasks, start, calc, pre);
        lemma_round_waiting_from_pending(tasks, start, calc, true, pre);
        let before = round(tasks, start, calc, true, pre);
        assert(!pre.contains(x)) by {
            if pre.contains(x) {
                let i = choose|i: int| 0 <= i < pre.len() && pre[i] == x;
                assert(pending[i] == pending[pending.len() - 1]);
            }
        }
        assert(!calc.contains_key(x)) by {
            assert(pending[pending.len() - 1] == x);
        }
        assert(!before.calc.contains_key(x));
        assert(has_task_id(tasks, x)) by {
            assert(pending[pending.len() - 1] == x);
        }
        lemma_last_index_of_id(tasks, x);
        let t = tasks[last_index_of_id(tasks, x)];
        let r = round(tasks, start, calc, true, pending);
        if deps_ready(tasks, before.calc, t.dependencies) {
            let sd = planned_start(t, start, before.calc);
            let ed = sd + span_days(t.duration);
            assert(day_in_range(sd) && day_in_range(ed));
            assert(r.calc == before.calc.insert(x, (sd as i32, ed as i32)));
            lemma_latest_end_bounds(before.calc, t.dependencies);
            assert forall|id: u32| #[trigger] r.calc.contains_key(id) implies entry_ok(tasks, r.calc, id) by {
                if id == x {
                    assert forall|k: int| 0 <= k < t.dependencies.len() && has_task_id(tasks, #[trigger] t.dependencies[k])
                        implies r.calc.contains_key(t.dependencies[k]) && r.calc[t.dependencies[k]].1 < r.calc[id].0 by {
                        let d = t.dependencies[k];
                        assert(before.calc.contains_key(d));
                    }
                } else {
                    assert(before.calc.contains_key(id));
                    assert(entry_ok(tasks, before.calc, id));
                    let u = tasks[last_index_of_id(tasks, id)];
                    assert forall|k: int| 0 <= k < u.dependencies.len() && has_task_id(tasks, #[trigger] u.dependencies[k])
                        implies r.calc.contains_key(u.dependencies[k]) && r.calc[u.dependencies[k]].1 < r.calc[id].0 by {
                        assert(before.calc.contains_key(u.dependencies[k]));
                    }
                }
            }
        }
        assert forall|id: u32| #[trigger] r.calc.contains_key(id) implies calc.contains_key(id) || pending.contains(id) by {
            if id != x && !calc.contains_key(id) {
                assert(before.calc.contains_key(id));
                assert(pre.contains(id));
                let i = choose|i: int| 0 <= i < pre.len() && pre[i] == id;
                assert(pending[i] == id);
            } else if id == x {
                assert(pending[pending.len() - 1] == x);
            }
        }
        assert(r.waiting.no_duplicates()) by {
            if !deps_ready(tasks, before.calc, t.dependencies) {
                assert(!before.waiting.contains(x)) by {
                    if before.waiting.contains(x) {
                        let i = choose|i: int| 0 <= i < before.waiting.len() && before.waiting[i] == x;
                        assert(pre.contains(before.waiting[i]));
                    }
                }
                assert forall|i: int, j: int| 0 <= i < r.waiting.len() && 0 <= j < r.waiting.len() && i != j implies r.waiting[i] != r.waiting[j] by {
                    if i < before.waiting.len() && j < before.waiting.len() {
                        assert(r.waiting[i] == before.waiting[i] && r.waiting[j] == before.waiting[j]);
                    } else if i < before.waiting.len() {
                        assert(r.waiting[i] == before.waiting[i]);
                        assert(before.waiting.contains(r.waiting[i]));
                    } else {
                        assert(r.waiting[j] == before.waiting[j]);
                        assert(before.waiting.contains(r.waiting[j]));
                    }
                }
            }
        }
        assert forall|k: int| 0 <= k < r.waiting.len() implies !r.calc.contains_key(#[trigger] r.waiting[k]) by {
            if k < before.waiting.len() {
                let w = before.waiting[k];
                assert(pre.contains(w));
                if deps_ready(tasks, before.calc, t.dependencies) {
                    assert(w != x);
                } else {
                    assert(r.waiting[k] == w);
                }
            }
        }
    }
}

/// The rounds keep the placed tasks well ordered.
proof fn lemma_rounds_good(tasks: Seq<TaskModel>, start: i32, calc: Map<u32, (i32, i32)>, pending: Seq<u32>, done: nat)
    requires
        calc_good(tasks, calc),
        rounds(tasks, start, calc, true, pending, done).1,
        pending.no_duplicates(),
        forall|k: int| 0 <= k < pending.len() ==> !calc.contains_key(#[trigger] pending[k]),
        forall|k: int| 0 <= k < pending.len() ==> has_task_id(tasks, #[trigger] pending[k]),
    ensures
        calc_good(tasks, rounds(tasks, start, calc, true, pending, done).0),
    decreases MAX_ROUNDS - done,
{
    if !(pending.len() == 0 || done >= MAX_ROUNDS) {
        let r = round(tasks, start, calc, true, pending);
        if !r.ok {
            lemma_rounds_not_ok(tasks, start, r.calc, r.waiting, done + 1);
        }
        lemma_round_good(tasks, start, calc, pending);
        lemma_round_waiting_from_pending(tasks, start, calc, true, pending);
        assert forall|k: int| 0 <= k < r.waiting.len() implies has_task_id(tasks, #[trigger] r.waiting[k]) by {
            assert(pending.contains(r.waiting[k]));
            let i = choose|i: int| 0 <= i < pending.len() && pending[i] == r.waiting[k];
        }
        lemma_rounds_good(tasks, start, r.calc, r.waiting, done + 1);
    }
}

/// The scheduler's central promise: a placed task lasts `max(duration, 1)`
/// days, and starts only after every dependency that is a task of the
/// project has been placed and has ended. (Where ids repeat, the scheduler
/// looks tasks up by id and this need not hold.)
pub proof fn law_schedule_respects_dependencies(tasks: Seq<TaskModel>, start: i32)
    requires
        ids_unique(tasks),
        placement(tasks, start).1,
    ensures
        scheduled_tasks(tasks, start).len() == tasks.len(),
        forall|i: int| 0 <= i < tasks.len() && (#[trigger] scheduled_tasks(tasks, start)[i]).start_date is Some ==> {
            let s = scheduled_tasks(tasks, start)[i];
            &&& s.end_date is Some
            &&& s.end_date->0 == s.start_date->0 + span_days(tasks[i].duration)
            &&& forall|k: int, j: int| #![trigger tasks[i].dependencies[k], tasks[j]] 0 <= k < tasks[i].dependencies.len() && 0 <= j < tasks.len()
                && tasks[j].id == tasks[i].dependencies[k] ==> {
                &&& scheduled_tasks(tasks, start)[j].end_date is Some
                &&& scheduled_tasks(tasks, start)[j].end_date->0 < s.start_date->0
            }
        },
{
    let ids = task_ids(tasks);
    assert(ids.no_duplicates()) by {
        assert forall|i: int, j: int| 0 <= i < ids.len() && 0 <= j < ids.len() && i != j implies ids[i] != ids[j] by {
            if i < j {} else {}
        }
    }
    assert forall|k: int| 0 <= k < ids.len() implies has_task_id(tasks, #[trigger] ids[k]) by {
        assert(tasks[k].id == ids[k]);
    }
    lemma_rounds_good(tasks, start, Map::empty(), ids, 0);
    let calc = placement(tasks, start).0;
    let st = scheduled_tasks(tasks, start);
    assert forall|i: int| 0 <= i < tasks.len() && (#[trigger] scheduled_tasks(tasks, start)[i]).start_date is Some implies {
        let s = scheduled_tasks(tasks, start)[i];
        &&& s.end_date is Some
        &&& s.end_date->0 == s.start_date->0 + span_days(tasks[i].duration)
        &&& forall|k: int, j: int| #![trigger tasks[i].dependencies[k], tasks[j]] 0 <= k < tasks[i].dependencies.len() && 0 <= j < tasks.len()
            && tasks[j].id == tasks[i].dependencies[k] ==> {
            &&& scheduled_tasks(tasks, start)[j].end_date is Some
            &&& scheduled_tasks(tasks, start)[j].end_date->0 < s.start_date->0
        }
    } by {
        let id = tasks[i].id;
        assert(st[i] == placed_task(tasks[i], calc));
        assert(calc.contains_key(id));
        assert(entry_ok(tasks, calc, id));
        lemma_last_index_of_id(tasks, id);
        assert(last_index_of_id(tasks, id) == i) by {
            let l = last_index_of_id(tasks, id);
            if l != i {
                if l < i {
                } else {
                    assert(tasks[i].id != tasks[l].id);
                }
            }
        }
        assert forall|k: int, j: int| #![trigger tasks[i].dependencies[k], tasks[j]] 0 <= k < tasks[i].dependencies.len() && 0 <= j < tasks.len()
            && tasks[j].id == tasks[i].dependencies[k] implies {
            &&& scheduled_tasks(tasks, start)[j].end_date is Some
            &&& scheduled_tasks(tasks, start)[j].end_date->0 < st[i].start_date->0
        } by {
            let d = tasks[i].dependencies[k];
            assert(has_task_id(tasks, d));
            assert(calc.contains_key(d));
            assert(st[j] == placed_task(tasks[j], calc));
        }
    }
}

// ---------------------------------------------------------------------
// Reading back what the editor shows

/// The pieces of a dependency list as the editor writes it: the first id,
/// then each further id after a space.
spec fn id_pieces(ids: Seq<u32>) -> Seq<Seq<char>> {
    Seq::new(ids.len(), |k: int| if k == 0 { decimal(ids[0] as nat) } else { seq![' '] + decimal(ids[k] as nat) })
}

proof fn lemma_no_commas_in_decimal(n: nat)
    ensures
        forall|k: int| 0 <= k < decimal(n).len() ==> decimal(n)[k] != ',',
        forall|k: int| 0 <= k < (seq![' '] + decimal(n)).len() ==> (seq![' '] + decimal(n))[k] != ',',
{
    lemma_decimal_reads_back(n);
    assert forall|k: int| 0 <= k < decimal(n).len() implies decimal(n)[k] != ',' by {
        assert(is_digit(decimal(n)[k]));
    }
    assert forall|k: int| 0 <= k < (seq![' '] + decimal(n)).len() implies (seq![' '] + decimal(n))[k] != ',' by {
        if k > 0 {
            assert((seq![' '] + decimal(n))[k] == decimal(n)[k - 1]);
        }
    }
}

proof fn lemma_split_joined(ids: Seq<u32>)
    requires
        ids.len() > 0,
    ensures
        split_commas(joined_ids(ids)) == id_pieces(ids),
    decreases ids.len(),
{
    if ids.len() == 1 {
        let d = decimal(ids[0] as nat);
        lemma_no_commas_in_decimal(ids[0] as nat);
        lemma_split_append(Seq::empty(), d);
        assert(Seq::<char>::empty() + d =~= d);
        assert(Seq::<char>::empty() + d =~= d);
        assert(split_commas(Seq::<char>::empty()) == seq![Seq::<char>::empty()]);
        assert(split_commas(d) =~= id_pieces(ids));
    } else {
        let pre = ids.drop_last();
        lemma_split_joined(pre);
        reveal_strlit(", ");
        let j = joined_ids(pre);
        let d = decimal(ids.last() as nat);
        let tail = seq![' '] + d;
        assert(joined_ids(ids) =~= j.push(',') + tail);
        assert(j.push(',').drop_last() =~= j);
        assert(split_commas(j.push(',')) == split_commas(j).push(Seq::empty()));
        lemma_no_commas_in_decimal(ids.last() as nat);
        lemma_split_append(j.push(','), tail);
        assert(Seq::<char>::empty() + tail =~= tail);
        assert(split_commas(joined_ids(ids)) =~= id_pieces(ids)) by {
            assert(id_pieces(ids).drop_last() =~= id_pieces(pre));
            assert(id_pieces(ids).last() == tail);
        }
    }
}

proof fn lemma_pieces_read_back(ids: Seq<u32>)
    ensures
        ids_in_pieces(id_pieces(ids)) == ids,
    decreases ids.len(),
{
    if ids.len() > 0 {
        let pre = ids.drop_last();
        lemma_pieces_read_back(pre);
        assert(id_pieces(ids).drop_last() =~= id_pieces(pre)) by {
            assert forall|k: int| 0 <= k < pre.len() implies id_pieces(ids).drop_last()[k] == #[trigger] id_pieces(pre)[k] by {}
        }
        lemma_u32_reads_back(ids.last());
        assert(ids.last() == ids[ids.len() - 1]);
        assert(ids_in_pieces(id_pieces(ids)) =~= ids);
    }
}

/// A dependency list as the editor shows it reads back as the same list.
pub proof fn law_dependency_list_reads_back(ids: Seq<u32>)
    ensures
        ids_in_list(joined_ids(ids)) == ids,
{
    if ids.len() == 0 {
        assert(split_commas(Seq::<char>::empty()) == seq![Seq::<char>::empty()]);
        assert(seq![Seq::<char>::empty()].drop_last() =~= Seq::<Seq<char>>::empty());
        assert(trim(Seq::<char>::empty()) == Seq::<char>::empty());
        assert(ids_in_pieces(Seq::<Seq<char>>::empty()) == Seq::<u32>::empty());
        assert(parsed_u32(Seq::<char>::empty()) is None);
        assert(seq![Seq::<char>::empty()].last() == Seq::<char>::empty());
        assert(ids_in_pieces(seq![Seq::<char>::empty()]) =~= Seq::<u32>::empty());
    } else {
        lemma_split_joined(ids);
        lemma_pieces_read_back(ids);
    }
}

/// Opening a field for editing and committing it unchanged leaves the task
/// as it was: names, assignees, durations, progress (up to 100) and
/// dependency lists (of a task without a manual start date, where it has
/// dependencies) read back as they were written.
pub proof fn law_unchanged_edit_keeps_task(t: TaskModel, field: TaskField, now: i32)
    requires
        field != TaskField::StartDate,
        field == TaskField::Progress ==> t.progress <= 100,
        field == TaskField::Dependencies ==> (t.dependencies.len() == 0 || t.manual_start_date is None),
    ensures
        edited_task(t, field, field_text(t, field), now).0 == t,
        edited_task(t, field, field_text(t, field), now).1 is None,
{
    match field {
        TaskField::Duration => {
            lemma_i64_reads_back(t.duration);
            let s = signed_decimal(t.duration as int);
            assert(trim(s).last() == s.last());
            assert(is_digit(s.last()));
            assert(duration_from_text(s, t.duration) == t.duration);
        },
        TaskField::Progress => {
            lemma_u8_reads_back(t.progress);
        },
        TaskField::Dependencies => {
            law_dependency_list_reads_back(t.dependencies);
        },
        _ => {},
    }
}

/// A field that can be loaded for editing and written back unchanged: a
/// progress of at most 100; a dependency list of a task without a manual
/// start date (where it has dependencies); a manual start date of a task
/// without dependencies, whose shown text reads back; a project start date
/// whose shown text reads back. `load_buffer_for_editing` states that a
/// date with a four-digit year reads back.
pub open spec fn reloadable(a: AppModel) -> bool {
    &&& a.focus_area == FocusArea::Project(ProjectField::StartDate) ==> date_reads_back(a.cur().start)
    &&& a.task_row_selected() ==> {
        let t = a.tasks()[a.selected->0 as int];
        &&& a.selected_task_field == TaskField::Progress ==> t.progress <= 100
        &&& a.selected_task_field == TaskField::Dependencies ==> (t.dependencies.len() == 0 || t.manual_start_date is None)
        &&& a.selected_task_field == TaskField::StartDate ==> (t.manual_start_date is Some ==> {
            &&& t.dependencies.len() == 0
            &&& date_reads_back(t.manual_start_date->0)
        })
    }
}

/// Loading the field under the cursor into the buffer and writing it back
/// unchanged leaves every project as it was; only the message may change,
/// and it does only when a manual start date is written back (which says
/// that dependencies were cleared).
pub proof fn law_load_then_save_keeps_projects(a: AppModel, now: i32)
    requires
        a.current < a.projects.len(),
        a.can_load_buffer(),
        reloadable(a),
    ensures
        a.buffer_loaded().buffer_saved(now).projects == a.projects,
        a.buffer_loaded().buffer_saved(now) == (AppModel { status: a.buffer_loaded().buffer_saved(now).status, ..a.buffer_loaded() }),
        a.buffer_loaded().buffer_saved(now).status == (
            if a.task_row_selected() && a.selected_task_field == TaskField::StartDate
                && a.tasks()[a.selected->0 as int].manual_start_date is Some {
                deps_cleared_message()
            } else {
                a.status
            }),
{
    let l = a.buffer_loaded();
    let b = l.buffer_saved(now);
    assert(l.cur() == a.cur());
    match a.focus_area {
        FocusArea::Project(ProjectField::WeekToShow) => {
            lemma_u32_reads_back(a.cur().week_to_show);
        },
        FocusArea::Tasks => {
            if let Some(i) = a.selected {
                let t = a.tasks()[i as int];
                let f = a.selected_task_field;
                if f == TaskField::StartDate {
                    if t.manual_start_date is Some {
                        assert(t.dependencies =~= Seq::<u32>::empty());
                    }
                    assert(edited_task(t, f, field_text(t, f), now).0 == t);
                } else {
                    law_unchanged_edit_keeps_task(t, f, now);
                }
                assert(a.tasks().update(i as int, t) =~= a.tasks());
            }
        },
        _ => {},
    }
    assert(a.projects.update(a.current as int, a.cur()) =~= a.projects);
    assert(b.projects =~= a.projects);
}

// ---------------------------------------------------------------------
// Scheduling reads only the plan

/// Two task lists that agree on what the scheduler reads: ids,
/// dependencies, durations and manual start dates.
pub open spec fn same_plan(a: Seq<TaskModel>, b: Seq<TaskModel>) -> bool {
    &&& a.len() == b.len()
    &&& forall|i: int| 0 <= i < a.len() ==> {
        &&& (#[trigger] a[i]).id == b[i].id
        &&& a[i].dependencies == b[i].dependencies
        &&& a[i].duration == b[i].duration
        &&& a[i].manual_start_date == b[i].manual_start_date
    }
}

proof fn lemma_same_plan_lookup(a: Seq<TaskModel>, b: Seq<TaskModel>, id: u32)
    requires
        same_plan(a, b),
    ensures
        has_task_id(a, id) == has_task_id(b, id),
        last_index_of_id(a, id) == last_index_of_id(b, id),
    decreases a.len(),
{
    if a.len() > 0 {
        assert(same_plan(a.drop_last(), b.drop_last())) by {
            assert forall|i: int| 0 <= i < a.drop_last().len() implies {
                &&& (#[trigger] a.drop_last()[i]).id == b.drop_last()[i].id
                &&& a.drop_last()[i].dependencies == b.drop_last()[i].dependencies
                &&& a.drop_last()[i].duration == b.drop_last()[i].duration
                &&& a.drop_last()[i].manual_start_date == b.drop_last()[i].manual_start_date
            } by {
                assert(a[i] == a.drop_last()[i]);
            }
        }
        lemma_same_plan_lookup(a.drop_last(), b.drop_last(), id);
        assert(a.last() == a[a.len() - 1]);
        if has_task_id(a, id) {
            let i = choose|i: int| 0 <= i < a.len() && a[i].id == id;
            assert(b[i].id == id);
        }
        if has_task_id(b, id) {
            let i = choose|i: int| 0 <= i < b.len() && b[i].id == id;
            assert(a[i].id == id);
        }
    }
}

proof fn lemma_same_plan_round(a: Seq<TaskModel>, b: Seq<TaskModel>, start: i32, calc: Map<u32, (i32, i32)>, ok: bool, pending: Seq<u32>)
    requires
        same_plan(a, b),
        forall|k: int| 0 <= k < pending.len() ==> has_task_id(a, #[trigger] pending[k]),
    ensures
        round(a, start, calc, ok, pending) == round(b, start, calc, ok, pending),
    decreases pending.len(),
{
    if pending.len() > 0 {
        assert forall|k: int| 0 <= k < pending.drop_last().len() implies has_task_id(a, #[trigger] pending.drop_last()[k]) by {
            assert(pending.drop_last()[k] == pending[k]);
        }
        lemma_same_plan_round(a, b, start, calc, ok, pending.drop_last());
        let id = pending.last();
        assert(has_task_id(a, pending[pending.len() - 1]));
        lemma_same_plan_lookup(a, b, id);
        lemma_last_index_of_id(a, id);
        let before = round(a, start, calc, ok, pending.drop_last());
        let ta = a[last_index_of_id(a, id)];
        let tb = b[last_index_of_id(b, id)];
        assert(deps_ready(a, before.calc, ta.dependencies) == deps_ready(b, before.calc, tb.dependencies)) by {
            assert forall|d: u32| has_task_id(a, d) == has_task_id(b, d) by {
                lemma_same_plan_lookup(a, b, d);
            }
        }
    }
}

proof fn lemma_same_plan_rounds(a: Seq<TaskModel>, b: Seq<TaskModel>, start: i32, calc: Map<u32, (i32, i32)>, ok: bool, pending: Seq<u32>, done: nat)
    requires
        same_plan(a, b),
        forall|k: int| 0 <= k < pending.len() ==> has_task_id(a, #[trigger] pending[k]),
    ensures
        rounds(a, start, calc, ok, pending, done) == rounds(b, start, calc, ok, pending, done),
    decreases MAX_ROUNDS - done,
{
    if !(pending.len() == 0 || done >= MAX_ROUNDS) {
        lemma_same_plan_round(a, b, start, calc, ok, pending);
        let r = round(a, start, calc, ok, pending);
        lemma_round_waiting_from_pending(a, start, calc, ok, pending);
        assert forall|k: int| 0 <= k < r.waiting.len() implies has_task_id(a, #[trigger] r.waiting[k]) by {
            let i = choose|i: int| 0 <= i < pending.len() && pending[i] == r.waiting[k];
        }
        lemma_same_plan_rounds(a, b, start, r.calc, r.ok, r.waiting, done + 1);
    }
}

/// Task lists that agree on the plan are placed alike.
pub proof fn law_placement_reads_only_the_plan(a: Seq<TaskModel>, b: Seq<TaskModel>, start: i32)
    requires
        same_plan(a, b),
    ensures
        placement(a, start) == placement(b, start),
{
    assert(task_ids(a) =~= task_ids(b));
    assert forall|k: int| 0 <= k < task_ids(a).len() implies has_task_id(a, #[trigger] task_ids(a)[k]) by {
        assert(a[k].id == task_ids(a)[k]);
    }
    lemma_same_plan_rounds(a, b, start, Map::empty(), true, task_ids(a), 0);
}

/// Scheduling a scheduled project changes nothing.
pub proof fn law_schedule_idempotent(tasks: Seq<TaskModel>, start: i32)
    ensures
        scheduled_tasks(scheduled_tasks(tasks, start), start) == scheduled_tasks(tasks, start),
{
    let u = scheduled_tasks(tasks, start);
    assert(same_plan(tasks, u));
    law_placement_reads_only_the_plan(tasks, u, start);
    assert(scheduled_tasks(u, start) =~= u);
}

// ---------------------------------------------------------------------
// Tasks without dependencies

proof fn lemma_round_keeps_keys(tasks: Seq<TaskModel>, start: i32, calc: Map<u32, (i32, i32)>, ok: bool, pending: Seq<u32>)
    ensures
        forall|id: u32| calc.contains_key(id) ==> #[trigger] round(tasks, start, calc, ok, pending).calc.contains_key(id),
    decreases pending.len(),
{
    if pending.len() > 0 {
        lemma_round_keeps_keys(tasks, start, calc, ok, pending.drop_last());
        assert forall|id: u32| calc.contains_key(id) implies #[trigger] round(tasks, start, calc, ok, pending).calc.contains_key(id) by {
            assert(round(tasks, start, calc, ok, pending.drop_last()).calc.contains_key(id));
        }
    }
}

proof fn lemma_rounds_keep_keys(tasks: Seq<TaskModel>, start: i32, calc: Map<u32, (i32, i32)>, ok: bool, pending: Seq<u32>, done: nat)
    ensures
        forall|id: u32| calc.contains_key(id) ==> #[trigger] rounds(tasks, start, calc, ok, pending, done).0.contains_key(id),
    decreases MAX_ROUNDS - done,
{
    if !(pending.len() == 0 || done >= MAX_ROUNDS) {
        lemma_round_keeps_keys(tasks, start, calc, ok, pending);
        let r = round(tasks, start, calc, ok, pending);
        lemma_rounds_keep_keys(tasks, start, r.calc, r.ok, r.waiting, done + 1);
        assert forall|id: u32| calc.contains_key(id) implies #[trigger] rounds(tasks, start, calc, ok, pending, done).0.contains_key(id) by {
            assert(r.calc.contains_key(id));
            assert(rounds(tasks, start, calc, ok, pending, done) == rounds(tasks, start, r.calc, r.ok, r.waiting, done + 1));
            assert(rounds(tasks, start, r.calc, r.ok, r.waiting, done + 1).0.contains_key(id));
        }
    }
}

proof fn lemma_round_places_free_tasks(tasks: Seq<TaskModel>, start: i32, calc: Map<u32, (i32, i32)>, ok: bool, pending: Seq<u32>)
    ensures
        forall|k: int| 0 <= k < pending.len() && tasks[last_index_of_id(tasks, #[trigger] pending[k])].dependencies.len() == 0
            ==> round(tasks, start, calc, ok, pending).calc.contains_key(pending[k]),
    decreases pending.len(),
{
    if pending.len() > 0 {
        let pre = pending.drop_last();
        lemma_round_places_free_tasks(tasks, start, calc, ok, pre);
        let before = round(tasks, start, calc, ok, pre);
        assert forall|k: int| 0 <= k < pending.len() && tasks[last_index_of_id(tasks, #[trigger] pending[k])].dependencies.len() == 0
            implies round(tasks, start, calc, ok, pending).calc.contains_key(pending[k]) by {
            if k < pending.len() - 1 {
                assert(pre[k] == pending[k]);
                assert(before.calc.contains_key(pending[k]));
            } else {
                let t = tasks[last_index_of_id(tasks, pending.last())];
                assert(pending[k] == pending.last());
                assert(deps_ready(tasks, before.calc, t.dependencies));
            }
        }
    }
}

/// Every task without dependencies is scheduled (where ids do not repeat).
pub proof fn law_tasks_without_dependencies_are_scheduled(tasks: Seq<TaskModel>, start: i32)
    requires
        ids_unique(tasks),
    ensures
        forall|i: int| 0 <= i < tasks.len() && tasks[i].dependencies.len() == 0
            ==> (#[trigger] scheduled_tasks(tasks, start)[i]).start_date is Some,
{
    let ids = task_ids(tasks);
    let calc = placement(tasks, start).0;
    if tasks.len() > 0 {
        lemma_round_places_free_tasks(tasks, start, Map::empty(), true, ids);
        let r = round(tasks, start, Map::empty(), true, ids);
        lemma_rounds_keep_keys(tasks, start, r.calc, r.ok, r.waiting, 1);
        assert(placement(tasks, start) == rounds(tasks, start, r.calc, r.ok, r.waiting, 1));
        assert forall|i: int| 0 <= i < tasks.len() && tasks[i].dependencies.len() == 0
            implies (#[trigger] scheduled_tasks(tasks, start)[i]).start_date is Some by {
            let id = tasks[i].id;
            lemma_last_index_of_id(tasks, id);
            assert(last_index_of_id(tasks, id) == i) by {
                let l = last_index_of_id(tasks, id);
                if l != i {
                    if l < i {
                    } else {
                        assert(tasks[i].id != tasks[l].id);
                    }
                }
            }
            assert(ids[i] == id);
            assert(r.calc.contains_key(id));
            assert(calc.contains_key(id));
        }
    }
}

// ---------------------------------------------------------------------
// Renumbering twice

proof fn lemma_renumbered_lookup(tasks: Seq<TaskModel>, d: u32)
    requires
        tasks.len() <= u32::MAX,
        1 <= d <= tasks.len(),
    ensures
        has_task_id(renumbered(tasks), d),
        last_index_of_id(renumbered(tasks), d) == d - 1,
{
    let r = renumbered(tasks);
    assert(r[d - 1].id == d);
    lemma_last_index_of_id(r, d);
    let l = last_index_of_id(r, d);
    assert(r[l].id == l + 1);
}

proof fn lemma_renumbered_deps_fixed(tasks: Seq<TaskModel>, deps: Seq<u32>)
    requires
        tasks.len() <= u32::MAX,
        forall|k: int| 0 <= k < deps.len() ==> 1 <= #[trigger] deps[k] <= tasks.len(),
    ensures
        renumbered_deps(renumbered(tasks), deps) == deps,
    decreases deps.len(),
{
    if deps.len() > 0 {
        assert forall|k: int| 0 <= k < deps.drop_last().len() implies 1 <= #[trigger] deps.drop_last()[k] <= tasks.len() by {
            assert(deps.drop_last()[k] == deps[k]);
        }
        lemma_renumbered_deps_fixed(tasks, deps.drop_last());
        assert(deps.last() == deps[deps.len() - 1]);
        lemma_renumbered_lookup(tasks, deps.last());
        assert(renumbered_deps(renumbered(tasks), deps) =~= deps);
    }
}

/// Renumbering a renumbered list changes nothing.
pub proof fn law_renumber_idempotent(tasks: Seq<TaskModel>)
    requires
        tasks.len() <= u32::MAX,
    ensures
        renumbered(renumbered(tasks)) == renumbered(tasks),
{
    law_renumbered_ids(tasks);
    let r = renumbered(tasks);
    assert forall|i: int| 0 <= i < r.len() implies #[trigger] renumbered(r)[i] == r[i] by {
        assert forall|k: int| 0 <= k < r[i].dependencies.len() implies 1 <= #[trigger] r[i].dependencies[k] <= tasks.len() by {}
        lemma_renumbered_deps_fixed(tasks, r[i].dependencies);
    }
    assert(renumbered(r) =~= r);
}

// ---------------------------------------------------------------------
// Moving down, then up

/// Tasks numbered as renumbering leaves them: the task at position `j` has
/// number `j + 1`, and every dependency names a task of the list.
pub open spec fn numbered(tasks: Seq<TaskModel>) -> bool {
    &&& tasks.len() <= u32::MAX
    &&& forall|j: int| 0 <= j < tasks.len() ==> (#[trigger] tasks[j]).id == j + 1
    &&& forall|j: int, k: int| 0 <= j < tasks.len() && 0 <= k < tasks[j].dependencies.len()
        ==> 1 <= #[trigger] tasks[j].dependencies[k] <= tasks.len()
}

/// Numbers `i + 1` and `i + 2` exchanged, every other number kept.
pub open spec fn swap_numbers(i: int, d: u32) -> u32 {
    if d == i + 1 {
        (i + 2) as u32
    } else if d == i + 2 {
        (i + 1) as u32
    } else {
        d
    }
}

/// Two task lists alike in everything but the scheduled dates.
pub open spec fn same_but_dates(a: Seq<TaskModel>, b: Seq<TaskModel>) -> bool {
    &&& a.len() == b.len()
    &&& forall|j: int| 0 <= j < a.len()
        ==> (#[trigger] a[j]) == (TaskModel { start_date: a[j].start_date, end_date: a[j].end_date, ..b[j] })
}

proof fn lemma_lookup_swapped(x: Seq<TaskModel>, i: int, d: u32)
    requires
        x.len() <= u32::MAX,
        0 <= i,
        i + 1 < x.len(),
        forall|j: int| 0 <= j < x.len() ==> (#[trigger] x[j]).id == swap_numbers(i, (j + 1) as u32),
        1 <= d <= x.len(),
    ensures
        has_task_id(x, d),
        number_at(last_index_of_id(x, d)) == swap_numbers(i, d),
{
    let p = swap_numbers(i, d) - 1;
    assert(x[p].id == d);
    lemma_last_index_of_id(x, d);
    let l = last_index_of_id(x, d);
    assert(x[l].id == d);
    assert(x[l].id == swap_numbers(i, (l + 1) as u32));
    assert(l == p);
}

proof fn lemma_renumbered_deps_swapped(x: Seq<TaskModel>, i: int, deps: Seq<u32>)
    requires
        x.len() <= u32::MAX,
        0 <= i,
        i + 1 < x.len(),
        forall|j: int| 0 <= j < x.len() ==> (#[trigger] x[j]).id == swap_numbers(i, (j + 1) as u32),
        forall|k: int| 0 <= k < deps.len() ==> 1 <= #[trigger] deps[k] <= x.len(),
    ensures
        renumbered_deps(x, deps) == deps.map_values(|d: u32| swap_numbers(i, d)),
    decreases deps.len(),
{
    if deps.len() > 0 {
        let r = deps.drop_last();
        assert forall|k: int| 0 <= k < r.len() implies 1 <= #[trigger] r[k] <= x.len() by {
            assert(r[k] == deps[k]);
        }
        lemma_renumbered_deps_swapped(x, i, r);
        assert(deps.last() == deps[deps.len() - 1]);
        lemma_lookup_swapped(x, i, deps.last());
        assert(renumbered_deps(x, deps) =~= deps.map_values(|d: u32| swap_numbers(i, d)));
    }
}

proof fn lemma_max_id_same_ids(a: Seq<TaskModel>, b: Seq<TaskModel>)
    requires
        a.len() == b.len(),
        forall|j: int| 0 <= j < a.len() ==> (#[trigger] a[j]).id == b[j].id,
    ensures
        max_task_id(a) == max_task_id(b),
    decreases a.len(),
{
    if a.len() > 0 {
        assert forall|j: int| 0 <= j < a.drop_last().len() implies (#[trigger] a.drop_last()[j]).id == b.drop_last()[j].id by {
            assert(a[j] == a.drop_last()[j]);
        }
        lemma_max_id_same_ids(a.drop_last(), b.drop_last());
        assert(a.last() == a[a.len() - 1]);
    }
}

proof fn lemma_scheduled_same_but_dates(a: Seq<TaskModel>, b: Seq<TaskModel>, start: i32)
    requires
        same_but_dates(a, b),
    ensures
        scheduled_tasks(a, start) == scheduled_tasks(b, start),
        max_task_id(a) == max_task_id(b),
{
    assert(same_plan(a, b));
    law_placement_reads_only_the_plan(a, b, start);
    assert(scheduled_tasks(a, start) =~= scheduled_tasks(b, start));
    lemma_max_id_same_ids(a, b);
}

/// Moving the selected task down and then up again restores the task
/// list (order, numbers, dependencies; dates as scheduling gives them)
/// and the selection, where the tasks are numbered 1..n with every
/// dependency naming a task; the two moves leave two undo points and no
/// redo history.
pub proof fn law_move_down_then_up(a: AppModel)
    requires
        a.wf(),
        a.task_row_selected(),
        a.selected->0 + 1 < a.tasks().len(),
        numbered(a.tasks()),
    ensures
        a.moved_down().moved_up().projects == a.rescheduled().projects,
        a.moved_down().moved_up().next_task_id == a.rescheduled().next_task_id,
        a.moved_down().moved_up().selected == a.selected,
        a.moved_down().moved_up().history == a.history.push(a.cur()).push(a.moved_down().cur()),
        a.moved_down().moved_up().redo.len() == 0,
{
    let i = a.selected->0 as int;
    let t = a.tasks();
    let n = t.len();
    let start = a.cur().start;
    let w = a.tasks_swapped(i, i + 1);
    assert forall|j: int| 0 <= j < n implies (#[trigger] w[j]).id == swap_numbers(i, (j + 1) as u32) by {
        if j == i {
            assert(w[j] == t[i + 1]);
        } else if j == i + 1 {
            assert(w[j] == t[i]);
        } else {
            assert(w[j] == t[j]);
        }
    }
    let r1 = renumbered(w);
    assert forall|j: int| 0 <= j < n implies (#[trigger] r1[j]).dependencies
        == w[j].dependencies.map_values(|d: u32| swap_numbers(i, d)) by {
        let src = if j == i { i + 1 } else if j == i + 1 { i } else { j };
        assert(w[j] == t[src]);
        assert forall|k: int| 0 <= k < w[j].dependencies.len() implies 1 <= #[trigger] w[j].dependencies[k] <= n by {
            assert(t[src].dependencies[k] == w[j].dependencies[k]);
        }
        lemma_renumbered_deps_swapped(w, i, w[j].dependencies);
    }
    let m = a.moved_down();
    let s1 = scheduled_tasks(r1, start);
    assert(m.tasks() == s1);
    assert(m.selected == Some((i + 1) as usize));
    let w2 = m.tasks_swapped(i + 1, i);
    assert forall|j: int| 0 <= j < n implies (#[trigger] w2[j]).id == swap_numbers(i, (j + 1) as u32) by {
        if j == i {
            assert(w2[j] == s1[i + 1]);
        } else if j == i + 1 {
            assert(w2[j] == s1[i]);
        } else {
            assert(w2[j] == s1[j]);
        }
    }
    let r2 = renumbered(w2);
    assert(same_but_dates(r2, t)) by {
        assert forall|j: int| 0 <= j < n implies (#[trigger] r2[j])
            == (TaskModel { start_date: r2[j].start_date, end_date: r2[j].end_date, ..t[j] }) by {
            let src = if j == i { i + 1 } else if j == i + 1 { i } else { j };
            assert(w2[j] == s1[src]);
            assert(s1[src] == placed_task(r1[src], placement(r1, start).0));
            assert(w[src] == t[j]);
            let deps1 = r1[src].dependencies;
            assert(deps1 == t[j].dependencies.map_values(|d: u32| swap_numbers(i, d)));
            assert forall|k: int| 0 <= k < deps1.len() implies 1 <= #[trigger] deps1[k] <= n by {
                assert(1 <= t[j].dependencies[k] <= n);
            }
            lemma_renumbered_deps_swapped(w2, i, deps1);
            assert(r2[j].dependencies =~= t[j].dependencies);
        }
    }
    lemma_scheduled_same_but_dates(r2, t, start);
    let b = m.moved_up();
    assert(b.tasks() == scheduled_tasks(r2, start));
    assert(b.projects =~= a.rescheduled().projects);
}

// ---------------------------------------------------------------------
// Which tasks get placed

/// The task that looking up `id` yields: the last task with that id.
pub open spec fn task_of(tasks: Seq<TaskModel>, id: u32) -> TaskModel {
    tasks[last_index_of_id(tasks, id)]
}

/// Every chain of dependencies that starts at the task with this id and
/// runs through tasks of the project holds at most `k` tasks: the chains
/// are free of cycles and no longer than `k`.
pub open spec fn chains_within(tasks: Seq<TaskModel>, id: u32, k: nat) -> bool
    decreases k,
{
    k > 0 && forall|j: int| 0 <= j < task_of(tasks, id).dependencies.len()
        ==> (has_task_id(tasks, #[trigger] task_of(tasks, id).dependencies[j])
            ==> chains_within(tasks, task_of(tasks, id).dependencies[j], (k - 1) as nat))
}

/// Each id of the set names a task that depends on some id of the set:
/// the tasks on a dependency cycle, with the tasks whose dependencies lead
/// into it, form such a set.
pub open spec fn waits_in(tasks: Seq<TaskModel>, c: Set<u32>) -> bool {
    forall|id: u32| #[trigger] c.contains(id) ==> {
        &&& has_task_id(tasks, id)
        &&& exists|k: int| 0 <= k < task_of(tasks, id).dependencies.len()
            && c.contains(#[trigger] task_of(tasks, id).dependencies[k])
    }
}

proof fn lemma_round_covers(tasks: Seq<TaskModel>, start: i32, calc: Map<u32, (i32, i32)>, ok: bool, pending: Seq<u32>)
    ensures
        forall|j: int| 0 <= j < pending.len() ==> round(tasks, start, calc, ok, pending).calc.contains_key(#[trigger] pending[j])
            || round(tasks, start, calc, ok, pending).waiting.contains(pending[j]),
    decreases pending.len(),
{
    if pending.len() > 0 {
        let pre = pending.drop_last();
        lemma_round_covers(tasks, start, calc, ok, pre);
        let before = round(tasks, start, calc, ok, pre);
        let r = round(tasks, start, calc, ok, pending);
        assert forall|j: int| 0 <= j < pending.len() implies r.calc.contains_key(#[trigger] pending[j])
            || r.waiting.contains(pending[j]) by {
            if j < pending.len() - 1 {
                assert(pre[j] == pending[j]);
                if before.waiting.contains(pending[j]) {
                    let w = choose|w: int| 0 <= w < before.waiting.len() && before.waiting[w] == pending[j];
                    if r.waiting != before.waiting {
                        assert(r.waiting[w] == before.waiting[w]);
                    }
                }
            } else {
                if !r.calc.contains_key(pending.last()) {
                    assert(r.waiting[r.waiting.len() - 1] == pending.last());
                }
            }
        }
    }
}

proof fn lemma_round_places_bounded(tasks: Seq<TaskModel>, start: i32, calc: Map<u32, (i32, i32)>, ok: bool, pending: Seq<u32>, k: nat)
    requires
        forall|id: u32| has_task_id(tasks, id) && chains_within(tasks, id, k) ==> #[trigger] calc.contains_key(id),
    ensures
        forall|j: int| 0 <= j < pending.len() && chains_within(tasks, #[trigger] pending[j], k + 1)
            ==> round(tasks, start, calc, ok, pending).calc.contains_key(pending[j]),
    decreases pending.len(),
{
    if pending.len() > 0 {
        let pre = pending.drop_last();
        lemma_round_places_bounded(tasks, start, calc, ok, pre, k);
        lemma_round_keeps_keys(tasks, start, calc, ok, pre);
        let before = round(tasks, start, calc, ok, pre);
        let r = round(tasks, start, calc, ok, pending);
        assert forall|j: int| 0 <= j < pending.len() && chains_within(tasks, #[trigger] pending[j], k + 1)
            implies r.calc.contains_key(pending[j]) by {
            if j < pending.len() - 1 {
                assert(pre[j] == pending[j]);
                assert(before.calc.contains_key(pending[j]));
            } else {
                let id = pending.last();
                assert(pending[j] == id);
                let t = task_of(tasks, id);
                assert(deps_ready(tasks, before.calc, t.dependencies)) by {
                    assert forall|q: int| 0 <= q < t.dependencies.len() implies before.calc.contains_key(#[trigger] t.dependencies[q])
                        || !has_task_id(tasks, t.dependencies[q]) by {
                        let d = t.dependencies[q];
                        if has_task_id(tasks, d) {
                            assert(chains_within(tasks, d, k));
                            assert(calc.contains_key(d));
                        }
                    }
                }
            }
        }
    }
}

proof fn lemma_rounds_place_bounded(tasks: Seq<TaskModel>, start: i32, calc: Map<u32, (i32, i32)>, ok: bool, pending: Seq<u32>, done: nat)
    requires
        done <= MAX_ROUNDS,
        forall|id: u32| #[trigger] has_task_id(tasks, id) ==> calc.contains_key(id) || pending.contains(id),
        forall|id: u32| has_task_id(tasks, id) && chains_within(tasks, id, done) ==> #[trigger] calc.contains_key(id),
    ensures
        forall|id: u32| has_task_id(tasks, id) && chains_within(tasks, id, MAX_ROUNDS as nat)
            ==> #[trigger] rounds(tasks, start, calc, ok, pending, done).0.contains_key(id),
    decreases MAX_ROUNDS - done,
{
    if pending.len() == 0 {
    } else if done >= MAX_ROUNDS {
    } else {
        let r = round(tasks, start, calc, ok, pending);
        lemma_round_places_bounded(tasks, start, calc, ok, pending, done);
        lemma_round_keeps_keys(tasks, start, calc, ok, pending);
        lemma_round_covers(tasks, start, calc, ok, pending);
        assert forall|id: u32| has_task_id(tasks, id) && chains_within(tasks, id, done + 1) implies #[trigger] r.calc.contains_key(id) by {
            if !calc.contains_key(id) {
                let j = choose|j: int| 0 <= j < pending.len() && pending[j] == id;
                assert(chains_within(tasks, pending[j], done + 1));
            }
        }
        assert forall|id: u32| #[trigger] has_task_id(tasks, id) implies r.calc.contains_key(id) || r.waiting.contains(id) by {
            if !calc.contains_key(id) {
                let j = choose|j: int| 0 <= j < pending.len() && pending[j] == id;
                assert(r.calc.contains_key(pending[j]) || r.waiting.contains(pending[j]));
            }
        }
        lemma_rounds_place_bounded(tasks, start, r.calc, r.ok, r.waiting, done + 1);
        assert(rounds(tasks, start, calc, ok, pending, done) == rounds(tasks, start, r.calc, r.ok, r.waiting, done + 1));
    }
}

/// A task whose dependency chains are free of cycles and hold at most as
/// many tasks as the scheduler runs rounds gets placed.
pub proof fn law_short_acyclic_chains_are_placed(tasks: Seq<TaskModel>, start: i32, i: int)
    requires
        0 <= i < tasks.len(),
        chains_within(tasks, tasks[i].id, MAX_ROUNDS as nat),
    ensures
        scheduled_tasks(tasks, start)[i].start_date is Some,
        scheduled_tasks(tasks, start)[i].end_date is Some,
{
    let ids = task_ids(tasks);
    assert forall|id: u32| #[trigger] has_task_id(tasks, id) implies Map::<u32, (i32, i32)>::empty().contains_key(id) || ids.contains(id) by {
        let j = choose|j: int| 0 <= j < tasks.len() && tasks[j].id == id;
        assert(ids[j] == id);
    }
    lemma_rounds_place_bounded(tasks, start, Map::empty(), true, ids, 0);
    assert(has_task_id(tasks, tasks[i].id));
    assert(placement(tasks, start).0.contains_key(tasks[i].id));
}

proof fn lemma_round_avoids(tasks: Seq<TaskModel>, start: i32, calc: Map<u32, (i32, i32)>, ok: bool, pending: Seq<u32>, c: Set<u32>)
    requires
        waits_in(tasks, c),
        forall|id: u32| #[trigger] c.contains(id) ==> !calc.contains_key(id),
    ensures
        forall|id: u32| #[trigger] c.contains(id) ==> !round(tasks, start, calc, ok, pending).calc.contains_key(id),
    decreases pending.len(),
{
    if pending.len() > 0 {
        let pre = pending.drop_last();
        lemma_round_avoids(tasks, start, calc, ok, pre, c);
        let before = round(tasks, start, calc, ok, pre);
        let id = pending.last();
        if c.contains(id) {
            let t = task_of(tasks, id);
            let q = choose|q: int| 0 <= q < t.dependencies.len() && c.contains(#[trigger] t.dependencies[q]);
            let d = t.dependencies[q];
            assert(c.contains(d));
            assert(has_task_id(tasks, d));
            assert(!before.calc.contains_key(d));
            assert(!deps_ready(tasks, before.calc, t.dependencies));
        }
    }
}

proof fn lemma_rounds_avoid(tasks: Seq<TaskModel>, start: i32, calc: Map<u32, (i32, i32)>, ok: bool, pending: Seq<u32>, done: nat, c: Set<u32>)
    requires
        waits_in(tasks, c),
        forall|id: u32| #[trigger] c.contains(id) ==> !calc.contains_key(id),
    ensures
        forall|id: u32| #[trigger] c.contains(id) ==> !rounds(tasks, start, calc, ok, pending, done).0.contains_key(id),
    decreases MAX_ROUNDS - done,
{
    if !(pending.len() == 0 || done >= MAX_ROUNDS) {
        lemma_round_avoids(tasks, start, calc, ok, pending, c);
        let r = round(tasks, start, calc, ok, pending);
        lemma_rounds_avoid(tasks, start, r.calc, r.ok, r.waiting, done + 1, c);
        assert(rounds(tasks, start, calc, ok, pending, done) == rounds(tasks, start, r.calc, r.ok, r.waiting, done + 1));
    }
}

/// Tasks that each wait for another task of their own set (the tasks on a
/// dependency cycle, and those whose dependencies lead into one) are
/// never placed: they keep no dates.
pub proof fn law_tasks_waiting_on_a_cycle_stay_unplaced(tasks: Seq<TaskModel>, start: i32, c: Set<u32>)
    requires
        waits_in(tasks, c),
    ensures
        forall|i: int| 0 <= i < tasks.len() && c.contains(tasks[i].id) ==> {
            &&& (#[trigger] scheduled_tasks(tasks, start)[i]).start_date is None
            &&& scheduled_tasks(tasks, start)[i].end_date is None
        },
{
    lemma_rounds_avoid(tasks, start, Map::empty(), true, task_ids(tasks), 0, c);
}

// ---------------------------------------------------------------------
// Where a task without dependencies starts

/// Every placed task whose looked-up task has no dependencies starts on
/// that task's manual start date, or on the project start where it has
/// none.
spec fn free_starts_ok(tasks: Seq<TaskModel>, start: i32, calc: Map<u32, (i32, i32)>) -> bool {
    forall|id: u32| #[trigger] calc.contains_key(id) && task_of(tasks, id).dependencies.len() == 0
        ==> calc[id].0 == (match task_of(tasks, id).manual_start_date { Some(m) => m, None => start })
}

proof fn lemma_round_free_starts(tasks: Seq<TaskModel>, start: i32, calc: Map<u32, (i32, i32)>, ok: bool, pending: Seq<u32>)
    requires
        free_starts_ok(tasks, start, calc),
    ensures
        free_starts_ok(tasks, start, round(tasks, start, calc, ok, pending).calc),
    decreases pending.len(),
{
    if pending.len() > 0 {
        lemma_round_free_starts(tasks, start, calc, ok, pending.drop_last());
    }
}

proof fn lemma_rounds_free_starts(tasks: Seq<TaskModel>, start: i32, calc: Map<u32, (i32, i32)>, ok: bool, pending: Seq<u32>, done: nat)
    requires
        free_starts_ok(tasks, start, calc),
    ensures
        free_starts_ok(tasks, start, rounds(tasks, start, calc, ok, pending, done).0),
    decreases MAX_ROUNDS - done,
{
    if !(pending.len() == 0 || done >= MAX_ROUNDS) {
        lemma_round_free_starts(tasks, start, calc, ok, pending);
        let r = round(tasks, start, calc, ok, pending);
        lemma_rounds_free_starts(tasks, start, r.calc, r.ok, r.waiting, done + 1);
    }
}

/// A task without dependencies (where ids do not repeat) is placed on its
/// manual start date, whatever the project start is, or on the project
/// start where it has no manual start date.
pub proof fn law_free_task_starts_on_its_own_date(tasks: Seq<TaskModel>, start: i32)
    requires
        ids_unique(tasks),
    ensures
        forall|i: int| 0 <= i < tasks.len() && tasks[i].dependencies.len() == 0
            ==> (#[trigger] scheduled_tasks(tasks, start)[i]).start_date == Some(match tasks[i].manual_start_date {
                Some(m) => m,
                None => start,
            }),
{
    law_tasks_without_dependencies_are_scheduled(tasks, start);
    lemma_rounds_free_starts(tasks, start, Map::empty(), true, task_ids(tasks), 0);
    let calc = placement(tasks, start).0;
    assert forall|i: int| 0 <= i < tasks.len() && tasks[i].dependencies.len() == 0
        implies (#[trigger] scheduled_tasks(tasks, start)[i]).start_date == Some(match tasks[i].manual_start_date {
            Some(m) => m,
            None => start,
        }) by {
        let id = tasks[i].id;
        lemma_last_index_of_id(tasks, id);
        assert(last_index_of_id(tasks, id) == i) by {
            let l = last_index_of_id(tasks, id);
            if l != i {
                if l < i {
                } else {
                    assert(tasks[i].id != tasks[l].id);
                }
            }
        }
        assert(task_of(tasks, id) == tasks[i]);
        assert(scheduled_tasks(tasks, start)[i] == placed_task(tasks[i], calc));
        assert(calc.contains_key(id));
    }
}

// ---------------------------------------------------------------------
// The text loaded for editing

/// The text loaded for editing a task's field reads back as the field:
/// names and assignees are the text itself; durations, progress and
/// dependency lists parse back to the stored numbers.
pub proof fn law_field_text_reads_back(t: TaskModel)
    ensures
        field_text(t, TaskField::Name) == t.name,
        field_text(t, TaskField::AssignedTo) == t.assigned_to,
        parsed_i64(field_text(t, TaskField::Duration)) == Some(t.duration),
        parsed_u8(field_text(t, TaskField::Progress)) == Some(t.progress),
        ids_in_list(field_text(t, TaskField::Dependencies)) == t.dependencies,
{
    lemma_i64_reads_back(t.duration);
    lemma_u8_reads_back(t.progress);
    law_dependency_list_reads_back(t.dependencies);
}

// ---------------------------------------------------------------------
// Jumping to today's week

/// After the command "show today's week", the week shown contains today
/// where today is on or after the project start (its first day lies at
/// most six days before today), and is the first week otherwise; the
/// rest of the planner is as it was but for the message.
pub proof fn law_todays_week_contains_today(a: AppModel)
    requires
        a.wf(),
    ensures
        a.today >= a.cur().start ==> {
            &&& 7 * a.at_todays_week().cur().week_to_show <= a.today - a.cur().start
            &&& a.today - a.cur().start < 7 * a.at_todays_week().cur().week_to_show + 7
        },
        a.today < a.cur().start ==> a.at_todays_week().cur().week_to_show == 0,
        a.at_todays_week().cur() == (ProjectModel { week_to_show: a.at_todays_week().cur().week_to_show, ..a.cur() }),
        a.at_todays_week() == (AppModel {
            projects: a.projects.update(a.current as int, a.at_todays_week().cur()),
            status: a.at_todays_week().status,
            ..a
        }),
{
    let s = a.cur().start;
    assert(a.cur().dates_valid());
    if a.today >= s {
        let x = a.today - s;
        assert(0 <= x <= MAX_DAY - MIN_DAY);
        assert(x / 7 <= x);
        assert(7 * (x / 7) <= x < 7 * (x / 7) + 7);
        assert(((x / 7) as u32) == x / 7);
    }
    assert(a.at_todays_week().projects =~= a.projects.update(a.current as int, a.at_todays_week().cur()));
}

// ---------------------------------------------------------------------
// How rows stand out

/// An overdue row always looks overdue, whatever the highlight mode and
/// whether the task runs today or is behind; a row that is not overdue
/// stands out as running only in the "today" mode and only when it runs
/// today, and as urgent only in the "urgent" mode and only when it is
/// behind.
pub proof fn law_overdue_rows_stand_out(mode: HighlightMode, runs_today: bool, urgent: bool)
    ensures
        row_look_of(true, mode, runs_today, urgent) == RowLook::Overdue,
        row_look_of(false, mode, runs_today, urgent) == RowLook::RunsToday <==> (mode == HighlightMode::Today && runs_today),
        row_look_of(false, mode, runs_today, urgent) == RowLook::Urgent <==> (mode == HighlightMode::Urgent && urgent),
        row_look_of(false, mode, runs_today, urgent) != RowLook::Overdue,
{
}

} // verus!
