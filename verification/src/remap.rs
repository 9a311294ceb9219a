//! Renumbering: after the task list changes, tasks are numbered 1, 2, ...
//! in list order and every dependency follows its task to the new number;
//! a dependency on an id that no task has is dropped.
use vstd::prelude::*;
use crate::model::{Task, TaskModel, tasks_model};
use crate::schedule::{has_task_id, last_index_of_id, index_by_id, lemma_last_index_of_id};

verus! {

broadcast use {
    vstd::std_specs::hash::group_hash_axioms,
    vstd::std_specs::hash::axiom_u32_obeys_hash_table_key_model,
    vstd::std_specs::hash::axiom_random_state_builds_valid_hashers,
};

/// The number a task at position `i` gets.
pub open spec fn number_at(i: int) -> u32 {
    (i + 1) as u32
}

/// The dependencies after renumbering: each id that names a task becomes
/// the new number of the last task with that id; other ids are dropped.
pub open spec fn renumbered_deps(tasks: Seq<TaskModel>, deps: Seq<u32>) -> Seq<u32>
    decreases deps.len(),
{
    if deps.len() == 0 {
        Seq::empty()
    } else {
        let rest = renumbered_deps(tasks, deps.drop_last());
        let d = deps.last();
        if has_task_id(tasks, d) {
            rest.push(number_at(last_index_of_id(tasks, d)))
        } else {
            rest
        }
    }
}

/// The tasks after renumbering.
pub open spec fn renumbered(tasks: Seq<TaskModel>) -> Seq<TaskModel> {
    Seq::new(
        tasks.len(),
        |i: int| TaskModel { id: number_at(i), dependencies: renumbered_deps(tasks, tasks[i].dependencies), ..tasks[i] },
    )
}

/// Renumbers the tasks in place.
pub fn renumber_tasks(tasks: &mut Vec<Task>)
    ensures
        tasks_model(final(tasks)@) == renumbered(tasks_model(old(tasks)@)),
{
    let ghost tm = tasks_model(tasks@);
    let by_id = index_by_id(tasks);
    let mut new_tasks: Vec<Task> = Vec::new();
    let n = tasks.len();
    for i in 0..n
        invariant
            n == tasks@.len(),
            tm == tasks_model(tasks@),
            new_tasks@.len() == i,
            forall|id: u32| #![trigger by_id@.contains_key(id)]
                by_id@.contains_key(id) <==> has_task_id(tm, id),
            forall|id: u32| #![trigger by_id@[id]]
                by_id@.contains_key(id) ==> by_id@[id] as int == last_index_of_id(tm, id),
            forall|j: int| 0 <= j < i ==> (#[trigger] new_tasks@[j])@ == renumbered(tm)[j],
    {
        let old_task = &tasks[i];
        let mut new_task = old_task.duplicate();
        new_task.id = #[verifier::truncate] ((i + 1) as u32);
        let mut deps: Vec<u32> = Vec::new();
        let ghost od = old_task.dependencies@;
        for k in 0..old_task.dependencies.len()
            invariant
                od == old_task.dependencies@,
                n == tasks@.len(),
                tm == tasks_model(tasks@),
                forall|id: u32| #![trigger by_id@.contains_key(id)]
                    by_id@.contains_key(id) <==> has_task_id(tm, id),
                forall|id: u32| #![trigger by_id@[id]]
                    by_id@.contains_key(id) ==> by_id@[id] as int == last_index_of_id(tm, id),
                deps@ == renumbered_deps(tm, od.take(k as int)),
        {
            assert(od.take(k + 1).drop_last() =~= od.take(k as int));
            match by_id.get(&old_task.dependencies[k]) {
                Some(pos) => {
                    proof {
                        lemma_last_index_of_id(tm, old_task.dependencies@[k as int]);
                        assert(tm.len() == n);
                    }
                    deps.push(#[verifier::truncate] ((*pos + 1) as u32));
                },
                None => {},
            }
        }
        assert(od.take(od.len() as int) =~= od);
        new_task.dependencies = deps;
        new_tasks.push(new_task);
    }
    *tasks = new_tasks;
    assert(tasks_model(tasks@) =~= renumbered(tm));
}

} // verus!
